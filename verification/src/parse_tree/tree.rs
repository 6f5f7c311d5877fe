//! A whole module as parsed, and its lowering to a compiled module.

use std::sync::Arc;
use vstd::prelude::*;

use super::decl::class::ClassDecl;
use super::decl::function::{FunctionDecl, FunctionImpl};
use super::decl::import::{FromImportKind, FromInportValue, ImportDecl, ImportKind};
use super::decl::IdeDecl;
use super::stmt::{generate_all, stmts_code, stmts_fault, Stmt};
use super::{at_symbol, found_at, moves, past, scanned, stuck, tok, accept_symbol, comes_keyword, either, spans, exported_function_opening, function_opening, keyword_opening, next_token, opens, opens_keyword, peek_slice, stmt_opening, took, Opening, ParserError};
use crate::tokenizer::token::{Keyword, Symbol, Token, TokenKind};
use crate::tokenizer::{TokenizeError, Tokenizer};
use crate::bytecode::op_code::{kept, temp_free, OpCode};
use crate::bytecode::{first_fault, BytecodeGenerationError, CompiledModule, Function};
use crate::string::StringSlice;

verus! {

#[derive(Debug, PartialEq, Eq)]
pub struct ParseTree {
    pub slice: StringSlice,
    pub imports: Vec<ImportDecl>,
    pub functions: Vec<FunctionImpl>,
    pub classes: Vec<ClassDecl>,
    pub stmts: Vec<Stmt>,
}

#[derive(Debug, PartialEq, Eq)]
pub struct TopLevelClass {
    pub decl: ClassDecl,
    pub export: bool,
}

impl FromInportValue {
    /// The instructions that bind one imported value, the module being on
    /// the stack: the module itself for `everything as name`, else the
    /// member `name` of the module, under its new name if it is renamed.
    /// The binding is constant.
    pub open spec fn code(&self) -> Seq<OpCode> {
        match self.kind {
            FromImportKind::Everything { name } => seq![
                OpCode::Dupe,
                OpCode::InitVariable { name },
                OpCode::StoreVariable { name },
                OpCode::MarkVariableConst { name },
            ],
            FromImportKind::Single { name, rename } => {
                let bound = match rename {
                    Some(rename) => rename,
                    None => name,
                };
                seq![
                    OpCode::Dupe,
                    OpCode::InitVariable { name: bound },
                    OpCode::PushConstString { value: name },
                    OpCode::PushIndex,
                    OpCode::StoreVariable { name: bound },
                    OpCode::MarkVariableConst { name: bound },
                ]
            },
        }
    }

    fn generate_bytecode(&self, bytecode: &mut Vec<OpCode>)
        ensures
            final(bytecode)@ == old(bytecode)@ + self.code(),
            temp_free(old(bytecode)@) ==> temp_free(final(bytecode)@),
    {
        match &self.kind {
            FromImportKind::Everything { name } => {
                bytecode.push(OpCode::Dupe);
                bytecode.push(OpCode::InitVariable { name: name.clone() });
                bytecode.push(OpCode::StoreVariable { name: name.clone() });
                bytecode.push(OpCode::MarkVariableConst { name: name.clone() });
            },
            FromImportKind::Single { name, rename } => {
                let bound = match rename {
                    Some(rename) => rename,
                    None => name,
                };
                bytecode.push(OpCode::Dupe);
                bytecode.push(OpCode::InitVariable { name: bound.clone() });
                bytecode.push(OpCode::PushConstString { value: name.clone() });
                bytecode.push(OpCode::PushIndex);
                bytecode.push(OpCode::StoreVariable { name: bound.clone() });
                bytecode.push(OpCode::MarkVariableConst { name: bound.clone() });
            },
        }
        assert(bytecode@ =~= old(bytecode)@ + self.code());
    }
}

/// The instructions that bind the first `n` imported values of a list.
pub open spec fn values_code(values: &Vec<FromInportValue>, n: nat) -> Seq<OpCode>
    decreases n,
{
    if n == 0 || n > values.len() {
        Seq::empty()
    } else {
        values_code(values, (n - 1) as nat) + values[n - 1].code()
    }
}

impl ImportDecl {
    /// The instructions that the import lowers to: the module is loaded,
    /// the values that the import names are bound, and the module is dropped.
    pub open spec fn code(&self) -> Seq<OpCode> {
        seq![OpCode::SetSlice { slice: self.slice }] + match self.kind {
            ImportKind::Direct(direct) => seq![OpCode::Import { path: direct.file }, OpCode::Pop],
            ImportKind::From(from) => seq![OpCode::Import { path: from.file }] + values_code(
                &from.values,
                from.values.len() as nat,
            ) + seq![OpCode::Pop],
        }
    }

    fn generate_bytecode(&self, bytecode: &mut Vec<OpCode>)
        ensures
            final(bytecode)@ == old(bytecode)@ + self.code(),
            temp_free(old(bytecode)@) ==> temp_free(final(bytecode)@),
    {
        bytecode.push(OpCode::SetSlice { slice: self.slice.duplicate() });
        match &self.kind {
            ImportKind::Direct(direct) => {
                bytecode.push(OpCode::Import { path: direct.file.clone() });
                bytecode.push(OpCode::Pop);
            },
            ImportKind::From(from) => {
                bytecode.push(OpCode::Import { path: from.file.clone() });
                let ghost head = bytecode@;
                let len: usize = from.values.len();
                let mut i: usize = 0;
                while i < len
                    invariant
                        len == from.values.len(),
                        i <= len,
                        bytecode@ == head + values_code(&from.values, i as nat),
                        temp_free(head) ==> temp_free(bytecode@),
                    decreases len - i,
                {
                    from.values[i].generate_bytecode(bytecode);
                    assert(bytecode@ =~= head + values_code(&from.values, (i + 1) as nat));
                    i = i + 1;
                }
                bytecode.push(OpCode::Pop);
            },
        }
        assert(bytecode@ =~= old(bytecode)@ + self.code());
    }
}

impl ClassDecl {
    /// The instructions that the class lowers to: a new object, with the
    /// parent class as its prototype if there is one, bound to the name of
    /// the class as a constant, and exported if so declared.
    pub open spec fn code(&self) -> Seq<OpCode> {
        seq![
            OpCode::SetSlice { slice: self.slice },
            OpCode::InitVariable { name: self.name },
            OpCode::PushNewObject,
        ] + (match self.extends {
            Some(parent) => seq![
                OpCode::Dupe,
                OpCode::PushVariable { name: parent },
                OpCode::StoreProtorype,
            ],
            None => Seq::empty(),
        }) + seq![
            OpCode::StoreVariable { name: self.name },
            OpCode::MarkVariableConst { name: self.name },
        ] + (if self.export {
            seq![OpCode::Export { name: self.name }]
        } else {
            Seq::empty()
        })
    }

    fn generate_bytecode(&self, bytecode: &mut Vec<OpCode>)
        ensures
            final(bytecode)@ == old(bytecode)@ + self.code(),
            temp_free(old(bytecode)@) ==> temp_free(final(bytecode)@),
    {
        bytecode.push(OpCode::SetSlice { slice: self.slice.duplicate() });
        bytecode.push(OpCode::InitVariable { name: self.name.clone() });
        bytecode.push(OpCode::PushNewObject);
        if let Some(parent) = &self.extends {
            bytecode.push(OpCode::Dupe);
            bytecode.push(OpCode::PushVariable { name: parent.clone() });
            bytecode.push(OpCode::StoreProtorype);
        }
        bytecode.push(OpCode::StoreVariable { name: self.name.clone() });
        bytecode.push(OpCode::MarkVariableConst { name: self.name.clone() });
        if self.export {
            bytecode.push(OpCode::Export { name: self.name.clone() });
        }
        assert(bytecode@ =~= old(bytecode)@ + self.code());
    }
}

impl FunctionImpl {
    /// The instructions that make the function with this index available:
    /// stored as a member of its base if it has one, else bound to its name
    /// as a constant, and exported if so declared.
    pub open spec fn code(&self, index: usize) -> Seq<OpCode> {
        seq![OpCode::SetSlice { slice: self.slice }] + match self.decl.base {
            Some(base) => seq![
                OpCode::PushVariable { name: base },
                OpCode::PushConstString { value: self.decl.name },
                OpCode::PushFunction { index },
                OpCode::StoreIndex,
            ],
            None => seq![
                OpCode::InitVariable { name: self.decl.name },
                OpCode::PushFunction { index },
                OpCode::StoreVariable { name: self.decl.name },
                OpCode::MarkVariableConst { name: self.decl.name },
            ] + (if self.export {
                seq![OpCode::Export { name: self.decl.name }]
            } else {
                Seq::empty()
            }),
        }
    }

    fn generate_bytecode(&self, index: usize, bytecode: &mut Vec<OpCode>)
        ensures
            final(bytecode)@ == old(bytecode)@ + self.code(index),
            temp_free(old(bytecode)@) ==> temp_free(final(bytecode)@),
    {
        bytecode.push(OpCode::SetSlice { slice: self.slice.duplicate() });
        if let Some(base) = &self.decl.base {
            bytecode.push(OpCode::PushVariable { name: base.clone() });
            bytecode.push(OpCode::PushConstString { value: self.decl.name.clone() });
            bytecode.push(OpCode::PushFunction { index });
            bytecode.push(OpCode::StoreIndex);
        } else {
            bytecode.push(OpCode::InitVariable { name: self.decl.name.clone() });
            bytecode.push(OpCode::PushFunction { index });
            bytecode.push(OpCode::StoreVariable { name: self.decl.name.clone() });
            bytecode.push(OpCode::MarkVariableConst { name: self.decl.name.clone() });
            if self.export {
                bytecode.push(OpCode::Export { name: self.decl.name.clone() });
            }
        }
        assert(bytecode@ =~= old(bytecode)@ + self.code(index));
    }

    /// The compiled form of the function. In its body neither exports nor
    /// loose `break` and `continue` are allowed.
    pub fn compile(&self) -> (r: Result<Function, BytecodeGenerationError>)
        ensures
            match r {
                Ok(function) => {
                    &&& self.block.fault(false, false) is None
                    &&& function.params@ == self.decl.param_names()
                    &&& function.body@ == self.block.code(0)
                    &&& temp_free(function.body@)
                },
                Err(e) => self.block.fault(false, false) == Some(e),
            },
    {
        let mut body: Vec<OpCode> = Vec::new();
        self.block.generate_bytecode(&mut body, false, false)?;
        assert(body@ =~= self.block.code(0));
        Ok(Function { params: self.decl.parameters(), body })
    }
}

impl ParseTree {
    /// The instructions of the first `n` imports.
    pub open spec fn imports_code(&self, n: nat) -> Seq<OpCode>
        decreases n,
    {
        if n == 0 || n > self.imports.len() {
            Seq::empty()
        } else {
            self.imports_code((n - 1) as nat) + self.imports[n - 1].code()
        }
    }

    /// The instructions of the first `n` classes.
    pub open spec fn classes_code(&self, n: nat) -> Seq<OpCode>
        decreases n,
    {
        if n == 0 || n > self.classes.len() {
            Seq::empty()
        } else {
            self.classes_code((n - 1) as nat) + self.classes[n - 1].code()
        }
    }

    /// The instructions that make the first `n` functions available.
    pub open spec fn functions_code(&self, n: nat) -> Seq<OpCode>
        decreases n,
    {
        if n == 0 || n > self.functions.len() {
            Seq::empty()
        } else {
            self.functions_code((n - 1) as nat) + self.functions[n - 1].code((n - 1) as usize)
        }
    }

    /// What comes before the statements in the init function: the imports,
    /// then the classes, then the functions.
    pub open spec fn declarations_code(&self) -> Seq<OpCode> {
        self.imports_code(self.imports.len() as nat) + self.classes_code(
            self.classes.len() as nat,
        ) + self.functions_code(self.functions.len() as nat)
    }

    /// The instructions of the init function when placed at position
    /// `base`: the declarations, then the top-level statements.
    pub open spec fn init_code(&self, base: nat) -> Seq<OpCode> {
        self.declarations_code() + stmts_code(
            &self.stmts,
            self.stmts.len() as nat,
            base + self.declarations_code().len(),
        )
    }

    /// The first error that lowering the init function meets, if any. At
    /// the top level exports are allowed, loose `break` and `continue` are not.
    pub open spec fn init_fault(&self) -> Option<BytecodeGenerationError> {
        stmts_fault(&self.stmts, self.stmts.len() as nat, true, false)
    }

    /// The first error among the bodies of the first `n` functions, if any.
    pub open spec fn functions_fault(&self, n: nat) -> Option<BytecodeGenerationError>
        decreases n,
    {
        if n == 0 || n > self.functions.len() {
            None
        } else {
            first_fault(
                self.functions_fault((n - 1) as nat),
                self.functions[n - 1].block.fault(false, false),
            )
        }
    }

    proof fn lemma_functions_fault_stays(&self, n: nat, m: nat)
        requires
            n <= m <= self.functions.len(),
            self.functions_fault(n) is Some,
        ensures
            self.functions_fault(m) == self.functions_fault(n),
        decreases m,
    {
        if n < m {
            self.lemma_functions_fault_stays(n, (m - 1) as nat);
        }
    }

    /// Appends the init function of the module: imports, classes,
    /// functions and statements, in this order.
    pub fn generate_init_bytecode(&self, bytecode: &mut Vec<OpCode>) -> (r: Result<
        (),
        BytecodeGenerationError,
    >)
        ensures
            r is Err ==> kept(old(bytecode)@, final(bytecode)@),
            match r {
                Ok(()) => self.init_fault() is None && final(bytecode)@ == old(bytecode)@
                    + self.init_code(old(bytecode)@.len()),
                Err(e) => self.init_fault() == Some(e),
            },
            r is Ok && temp_free(old(bytecode)@) ==> temp_free(final(bytecode)@),
    {
        let ghost before = bytecode@;
        let len: usize = self.imports.len();
        let mut i: usize = 0;
        while i < len
            invariant
                len == self.imports.len(),
                i <= len,
                bytecode@ == before + self.imports_code(i as nat),
                temp_free(before) ==> temp_free(bytecode@),
            decreases len - i,
        {
            self.imports[i].generate_bytecode(bytecode);
            assert(bytecode@ =~= before + self.imports_code((i + 1) as nat));
            i = i + 1;
        }
        let ghost imports = bytecode@;
        let len: usize = self.classes.len();
        let mut i: usize = 0;
        while i < len
            invariant
                len == self.classes.len(),
                i <= len,
                bytecode@ == imports + self.classes_code(i as nat),
                temp_free(before) ==> temp_free(bytecode@),
            decreases len - i,
        {
            self.classes[i].generate_bytecode(bytecode);
            assert(bytecode@ =~= imports + self.classes_code((i + 1) as nat));
            i = i + 1;
        }
        let ghost classes = bytecode@;
        let len: usize = self.functions.len();
        let mut i: usize = 0;
        while i < len
            invariant
                len == self.functions.len(),
                i <= len,
                bytecode@ == classes + self.functions_code(i as nat),
                temp_free(before) ==> temp_free(bytecode@),
            decreases len - i,
        {
            self.functions[i].generate_bytecode(i, bytecode);
            assert(bytecode@ =~= classes + self.functions_code((i + 1) as nat));
            i = i + 1;
        }
        assert(bytecode@ =~= before + self.declarations_code());
        generate_all(&self.stmts, bytecode, true, false)?;
        assert(bytecode@ =~= before + self.init_code(before.len()));
        Ok(())
    }

    /// The first error that compiling the module meets, if any: in the init
    /// function first, then in the functions in order.
    pub open spec fn fault(&self) -> Option<BytecodeGenerationError> {
        first_fault(self.init_fault(), self.functions_fault(self.functions.len() as nat))
    }

    /// The module `module` is what the tree lowers to: its init function
    /// takes no parameters and holds the instructions of the tree, and its
    /// functions are those of the tree, in order, each with its parameters
    /// and the instructions of its body. No stand-in for `break` or
    /// `continue` is left in any of them.
    pub open spec fn lowers_to(&self, module: CompiledModule) -> bool {
        &&& self.fault() is None
        &&& module.init.params@.len() == 0
        &&& module.init.body@ == self.init_code(0)
        &&& temp_free(module.init.body@)
        &&& module.functions@.len() == self.functions.len()
        &&& forall|i: int|
            0 <= i < self.functions.len() ==> {
                &&& (#[trigger] module.functions@[i]).params@
                    == self.functions[i].decl.param_names()
                &&& module.functions@[i].body@ == self.functions[i].block.code(0)
                &&& temp_free(module.functions@[i].body@)
            }
    }

    /// Compiling the tree comes to `r`: the module that the tree lowers
    /// to, or the first error that lowering it meets.
    pub open spec fn comes_to(&self, r: Result<CompiledModule, BytecodeGenerationError>) -> bool {
        match r {
            Ok(module) => self.lowers_to(module),
            Err(e) => self.fault() == Some(e),
        }
    }

    /// Compiles the module: the init function and every declared function,
    /// each function under the index by which the init function names it.
    /// No stand-in for `break` or `continue` is left in any of them.
    pub fn compile(&self) -> (r: Result<CompiledModule, BytecodeGenerationError>)
        ensures
            r matches Ok(module) ==> self.lowers_to(module),
            match r {
                Ok(module) => {
                    &&& self.fault() is None
                    &&& module.init.params@.len() == 0
                    &&& module.init.body@ == self.init_code(0)
                    &&& temp_free(module.init.body@)
                    &&& module.functions@.len() == self.functions.len()
                    &&& forall|i: int|
                        0 <= i < self.functions.len() ==> {
                            &&& (#[trigger] module.functions@[i]).params@
                                == self.functions[i].decl.param_names()
                            &&& module.functions@[i].body@ == self.functions[i].block.code(0)
                            &&& temp_free(module.functions@[i].body@)
                        }
                },
                Err(e) => self.fault() == Some(e),
            },
    {
        let mut body: Vec<OpCode> = Vec::new();
        self.generate_init_bytecode(&mut body)?;
        assert(body@ =~= self.init_code(0));
        let mut functions: Vec<Function> = Vec::new();
        let len: usize = self.functions.len();
        let mut i: usize = 0;
        while i < len
            invariant
                len == self.functions.len(),
                i <= len,
                self.init_fault() is None,
                self.functions_fault(i as nat) is None,
                functions@.len() == i,
                forall|k: int|
                    0 <= k < i ==> {
                        &&& (#[trigger] functions@[k]).params@
                            == self.functions[k].decl.param_names()
                        &&& functions@[k].body@ == self.functions[k].block.code(0)
                        &&& temp_free(functions@[k].body@)
                    },
            decreases len - i,
        {
            match self.functions[i].compile() {
                Ok(function) => {
                    functions.push(function);
                },
                Err(e) => {
                    proof {
                        self.lemma_functions_fault_stays((i + 1) as nat, len as nat);
                    }
                    return Err(e);
                },
            }
            i = i + 1;
        }
        Ok(CompiledModule { functions, init: Function { params: Vec::new(), body } })
    }
}

/// The opening of an item of a module: an import, a declaration for
/// tools, a statement, a function or a class.
pub open spec fn item_opening(tokenizer: &Tokenizer) -> Opening {
    either(
        opens(
            tokenizer,
            |kind: TokenKind|
                kind == TokenKind::Keyword(Keyword::Import) || kind == TokenKind::Keyword(
                    Keyword::From,
                ),
        ),
        either(
            opens_keyword(tokenizer, Keyword::Declare),
            either(
                stmt_opening(tokenizer),
                either(
                    either(exported_function_opening(tokenizer), function_opening(tokenizer)),
                    keyword_opening(tokenizer, Keyword::Class),
                ),
            ),
        ),
    )
}

impl ParseTree {
    /// What reading a whole module comes to at the cursor `c`: the cursor
    /// behind the end of the text, or the first error. The imports come
    /// first; then declarations for tools, statements, functions and
    /// classes in any order, as long as one begins; then the text must end.
    pub open spec fn scan(src: Arc<str>, c: nat) -> Result<nat, ParserError> {
        match tok(src, c) {
            Err(e) => Err(ParserError::TokenizeError(e)),
            Ok(_) => ParseTree::scan_imports(src, c),
        }
    }

    /// What reading a module comes to from the cursor `c` on, among the imports.
    pub open spec fn scan_imports(src: Arc<str>, c: nat) -> Result<nat, ParserError>
        decreases src@.len() - c,
    {
        match ImportDecl::scan(src, c) {
            Err(e) => Err(e),
            Ok(None) => ParseTree::scan_items(src, c),
            Ok(Some(c1)) => if moves(src, c, c1) {
                ParseTree::scan_imports(src, c1)
            } else {
                Err(stuck())
            },
        }
    }

    /// What reading a module comes to from the cursor `c` on, behind the
    /// imports: a semicolon may follow each statement.
    pub open spec fn scan_items(src: Arc<str>, c: nat) -> Result<nat, ParserError>
        decreases src@.len() - c,
    {
        let item = match IdeDecl::scan(src, c) {
            Ok(None) => match Stmt::scan(src, c) {
                Err(e) => Err(e),
                Ok(None) => match FunctionImpl::scan(src, c) {
                    Ok(None) => ClassDecl::scan(src, c),
                    other => other,
                },
                Ok(Some(c1)) => match at_symbol(src, c1, Symbol::Semicolon) {
                    Err(e) => Err(e),
                    Ok(true) => Ok(Some(past(src, c1))),
                    Ok(false) => Ok(Some(c1)),
                },
            },
            other => other,
        };
        match item {
            Err(e) => Err(e),
            Ok(None) => ParseTree::scan_end(src, c),
            Ok(Some(c2)) => if moves(src, c, c2) {
                ParseTree::scan_items(src, c2)
            } else {
                Err(stuck())
            },
        }
    }

    /// The numbers of imports, statements, functions and classes that
    /// reading a module at the cursor `c` finds.
    pub open spec fn tally(src: Arc<str>, c: nat) -> (nat, nat, nat, nat) {
        ParseTree::tally_imports(src, c, 0)
    }

    /// The numbers of items that reading a module finds from the cursor
    /// `c` on, among the imports, `imports` of which were read before.
    pub open spec fn tally_imports(src: Arc<str>, c: nat, imports: nat) -> (nat, nat, nat, nat)
        decreases src@.len() - c,
    {
        match ImportDecl::scan(src, c) {
            Ok(Some(c1)) => if moves(src, c, c1) {
                ParseTree::tally_imports(src, c1, imports + 1)
            } else {
                (imports, 0, 0, 0)
            },
            _ => ParseTree::tally_items(src, c, (imports, 0, 0, 0)),
        }
    }

    /// The numbers of items that reading a module finds from the cursor
    /// `c` on, behind the imports, `found` being the numbers of those read
    /// before.
    pub open spec fn tally_items(src: Arc<str>, c: nat, found: (nat, nat, nat, nat)) -> (
        nat,
        nat,
        nat,
        nat,
    )
        decreases src@.len() - c,
    {
        match IdeDecl::scan(src, c) {
            Err(_) => found,
            Ok(Some(c1)) => if moves(src, c, c1) {
                ParseTree::tally_items(src, c1, found)
            } else {
                found
            },
            Ok(None) => match Stmt::scan(src, c) {
                Err(_) => found,
                Ok(Some(c1)) => match at_symbol(src, c1, Symbol::Semicolon) {
                    Err(_) => found,
                    Ok(semicolon) => {
                        let c2 = if semicolon {
                            past(src, c1)
                        } else {
                            c1
                        };
                        if moves(src, c, c2) {
                            ParseTree::tally_items(src, c2, (found.0, found.1 + 1, found.2, found.3))
                        } else {
                            found
                        }
                    },
                },
                Ok(None) => match FunctionImpl::scan(src, c) {
                    Err(_) => found,
                    Ok(Some(c1)) => if moves(src, c, c1) {
                        ParseTree::tally_items(src, c1, (found.0, found.1, found.2 + 1, found.3))
                    } else {
                        found
                    },
                    Ok(None) => match ClassDecl::scan(src, c) {
                        Ok(Some(c1)) => if moves(src, c, c1) {
                            ParseTree::tally_items(
                                src,
                                c1,
                                (found.0, found.1, found.2, found.3 + 1),
                            )
                        } else {
                            found
                        },
                        _ => found,
                    },
                },
            },
        }
    }

    /// The numbers of imports, statements, functions and classes that the
    /// tree holds.
    pub open spec fn sizes(&self) -> (nat, nat, nat, nat) {
        (self.imports@.len(), self.stmts@.len(), self.functions@.len(), self.classes@.len())
    }

    /// What reading the end of the text comes to at the cursor `c`: any
    /// other token is refused.
    pub open spec fn scan_end(src: Arc<str>, c: nat) -> Result<nat, ParserError> {
        match tok(src, c) {
            Err(e) => Err(ParserError::TokenizeError(e)),
            Ok(token) => if token.kind is Eof {
                Ok(past(src, c))
            } else {
                Err(ParserError::unexpected(token, "ParseTree::try_parse"@))
            },
        }
    }

    /// The tree holds nothing.
    pub open spec fn is_empty(&self) -> bool {
        &&& self.imports@.len() == 0
        &&& self.functions@.len() == 0
        &&& self.classes@.len() == 0
        &&& self.stmts@.len() == 0
    }

    /// What reading a module comes to where its first token decides it.
    /// Where that token cannot be read, the error of the tokenizer comes
    /// out. Where it begins no item, the module is empty if the token is
    /// the end of the text, and the token is refused if it is not.
    pub open spec fn opened(
        opening: Opening,
        first: Result<Token, TokenizeError>,
        r: Result<Option<ParseTree>, ParserError>,
    ) -> bool {
        match opening {
            Opening::Fault(e) => r matches Err(error) && error == ParserError::TokenizeError(e),
            Opening::Declines => first matches Ok(token) && if token.kind is Eof {
                &&& r matches Ok(Some(tree))
                &&& tree.is_empty()
                &&& tree.slice == token.slice
            } else {
                r matches Err(error) && error == ParserError::unexpected(
                    token,
                    "ParseTree::try_parse"@,
                )
            },
            Opening::Begins => true,
        }
    }

    /// The opening of an import.
    pub open spec fn import_opening(tokenizer: &Tokenizer) -> Opening {
        opens(
            tokenizer,
            |kind: TokenKind|
                kind == TokenKind::Keyword(Keyword::Import) || kind == TokenKind::Keyword(
                    Keyword::From,
                ),
        )
    }

    /// The first item of the tree is what the first tokens call for: an
    /// import where they open one; else, unless they declare something
    /// for tools, a statement where they open one, else a function, else
    /// a class. The item is what reading it alone comes to.
    pub open spec fn begun(tokenizer: &Tokenizer, tree: ParseTree) -> bool {
        if ParseTree::import_opening(tokenizer) is Begins {
            tree.imports@.len() >= 1 && ImportDecl::read(tokenizer, Ok(Some(tree.imports@[0])))
        } else if opens_keyword(tokenizer, Keyword::Declare) is Begins {
            tree.imports@.len() == 0
        } else if stmt_opening(tokenizer) is Begins {
            tree.imports@.len() == 0 && tree.stmts@.len() >= 1 && Stmt::read(
                tokenizer,
                tree.stmts@[0],
            )
        } else if either(exported_function_opening(tokenizer), function_opening(tokenizer))
            is Begins {
            let function = tree.functions@[0];
            &&& tree.imports@.len() == 0
            &&& tree.functions@.len() >= 1
            &&& function.export == comes_keyword(tokenizer, 0, Keyword::Export)
            &&& FunctionDecl::read(tokenizer, function.export, Ok(Some(function.decl)))
        } else if keyword_opening(tokenizer, Keyword::Class) is Begins {
            tree.imports@.len() == 0 && tree.classes@.len() >= 1 && ClassDecl::headed(
                tokenizer,
                Ok(Some(tree.classes@[0])),
            )
        } else {
            true
        }
    }

    /// What reading a module from `before` may come to: a tree whose span
    /// lies in the text, or an error, as the first token decides where it
    /// decides.
    pub open spec fn read(before: &Tokenizer, r: Result<Option<ParseTree>, ParserError>) -> bool {
        &&& r matches Ok(tree) ==> tree is Some && tree->Some_0.slice.within(before.source())
            && spans(before, tree->Some_0.slice)
        &&& ParseTree::opened(item_opening(before), before.ahead(0), r)
        &&& r matches Ok(Some(tree)) ==> ParseTree::begun(before, tree)
    }

    /// Reads a whole module: the imports first, then statements,
    /// functions, classes and declarations for tools in any order, up to
    /// the end of the text. A semicolon may follow each statement.
    #[verifier::spinoff_prover]
    #[verifier::rlimit(50)]
    pub fn try_parse(tokenizer: &mut Tokenizer) -> (r: Result<Option<Self>, ParserError>)
        requires
            old(tokenizer).wf(),
        ensures
            r is Ok ==> final(tokenizer).wf(),
            ParseTree::read(old(tokenizer), r),
            item_opening(old(tokenizer)) is Declines && r is Ok ==> took(
                old(tokenizer),
                final(tokenizer),
                1,
            ),
            scanned(final(tokenizer), r) == found_at(
                ParseTree::scan(old(tokenizer).source(), old(tokenizer).cursor()),
            ),
            r matches Ok(Some(tree)) ==> tree.sizes() == ParseTree::tally(
                old(tokenizer).source(),
                old(tokenizer).cursor(),
            ),
    {
        let start = peek_slice(tokenizer)?;
        let mut imports: Vec<ImportDecl> = Vec::new();
        let mut end = start.duplicate();
        let mut more: bool = true;
        while more
            invariant
                ParseTree::tally(old(tokenizer).source(), old(tokenizer).cursor()) == if more {
                    ParseTree::tally_imports(tokenizer.source(), tokenizer.cursor(), imports@.len())
                } else {
                    ParseTree::tally_items(
                        tokenizer.source(),
                        tokenizer.cursor(),
                        (imports@.len(), 0, 0, 0),
                    )
                },
                ParseTree::scan(old(tokenizer).source(), old(tokenizer).cursor()) == if more {
                    ParseTree::scan_imports(tokenizer.source(), tokenizer.cursor())
                } else {
                    ParseTree::scan_items(tokenizer.source(), tokenizer.cursor())
                },
                tokenizer.wf(),
                tokenizer.source() == old(tokenizer).source(),
                end.within(old(tokenizer).source()),
                start.within(old(tokenizer).source()),
                old(tokenizer).ahead(0) matches Ok(first) && start == first.slice,
                imports@.len() == 0 ==> tokenizer.cursor() == old(tokenizer).cursor() && end
                    == start,
                imports@.len() == 0 && !more ==> !(ParseTree::import_opening(old(tokenizer))
                    is Begins),
                imports@.len() >= 1 ==> ParseTree::import_opening(old(tokenizer)) is Begins
                    && ImportDecl::read(old(tokenizer), Ok(Some(imports@[0]))),
            decreases tokenizer.remaining() + if more { 1nat } else { 0nat },
        {
            match ImportDecl::try_parse(tokenizer)? {
                Some(import) => {
                    end = import.slice.duplicate();
                    imports.push(import);
                },
                None => {
                    more = false;
                },
            }
        }
        let mut stmts: Vec<Stmt> = Vec::new();
        let mut functions: Vec<FunctionImpl> = Vec::new();
        let mut classes: Vec<ClassDecl> = Vec::new();
        more = true;
        let ghost mut untouched: bool = imports@.len() == 0;
        while more
            invariant
                ParseTree::tally(old(tokenizer).source(), old(tokenizer).cursor()) == if more {
                    ParseTree::tally_items(
                        tokenizer.source(),
                        tokenizer.cursor(),
                        (imports@.len(), stmts@.len(), functions@.len(), classes@.len()),
                    )
                } else {
                    (imports@.len(), stmts@.len(), functions@.len(), classes@.len())
                },
                ParseTree::scan(old(tokenizer).source(), old(tokenizer).cursor()) == if more {
                    ParseTree::scan_items(tokenizer.source(), tokenizer.cursor())
                } else {
                    ParseTree::scan_end(tokenizer.source(), tokenizer.cursor())
                },
                tokenizer.wf(),
                tokenizer.source() == old(tokenizer).source(),
                end.within(old(tokenizer).source()),
                start.within(old(tokenizer).source()),
                old(tokenizer).ahead(0) matches Ok(first) && start == first.slice,
                untouched ==> tokenizer.cursor() == old(tokenizer).cursor() && imports@.len() == 0
                    && end == start && stmts@.len() == 0 && functions@.len() == 0
                    && classes@.len() == 0 && !(ParseTree::import_opening(old(tokenizer))
                    is Begins),
                untouched && !more ==> item_opening(old(tokenizer)) is Declines,
                !untouched ==> item_opening(old(tokenizer)) is Begins && ParseTree::begun(
                    old(tokenizer),
                    ParseTree { slice: start, imports, functions, classes, stmts },
                ),
            decreases tokenizer.remaining() + if more { 1nat } else { 0nat },
        {
            if let Some(_) = IdeDecl::try_parse(tokenizer)? {
                proof {
                    untouched = false;
                }
                continue ;
            }
            if let Some(stmt) = Stmt::try_parse(tokenizer)? {
                stmts.push(stmt);
                proof {
                    untouched = false;
                }
                accept_symbol(tokenizer, Symbol::Semicolon)?;
                continue ;
            }
            if let Some(function) = FunctionImpl::try_parse(tokenizer)? {
                functions.push(function);
                proof {
                    untouched = false;
                }
                continue ;
            }
            if let Some(class) = ClassDecl::try_parse(tokenizer)? {
                classes.push(class);
                proof {
                    untouched = false;
                }
                continue ;
            }
            more = false;
        }
        let last = next_token(tokenizer)?;
        match last.kind {
            TokenKind::Eof => {},
            _ => {
                return Err(ParserError::unexpected_token(last, "ParseTree::try_parse"));
            },
        }
        Ok(Some(ParseTree { slice: start.merge(&end), imports, functions, classes, stmts }))
    }
}

} // verus!
