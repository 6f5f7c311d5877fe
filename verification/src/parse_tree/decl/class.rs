//! Class declarations.

use std::sync::Arc;
use vstd::prelude::*;

use super::VariableList;
use crate::parse_tree::{at_keyword, found_at, keyword_scan, needs_keyword, needs_name, or_stay, past, scanned, spans, accept_keyword, accept_keywords, accept_symbol, follows, keyword_opening, keyword_read, keyword_tokens, lemma_stream_shift, parsed, refused, took, peek_slice, require_identifier, require_keyword, require_symbol, ParserError};
use crate::string::StringSlice;
use crate::tokenizer::token::{Keyword, Symbol, Token, TokenKind};
use crate::tokenizer::Tokenizer;

verus! {

#[derive(Debug, PartialEq, Eq)]
pub struct ClassDecl {
    pub slice: StringSlice,
    pub export: bool,
    pub name: String,
    pub generics: Option<VariableList>,
    pub extends: Option<String>,
    pub params: Option<VariableList>,
}

impl ClassDecl {
    /// What reading a class comes to at the cursor `c`: the cursor behind
    /// it, nothing where its keywords are not there, or the error.
    pub open spec fn scan(src: Arc<str>, c: nat) -> Result<Option<nat>, ParserError> {
        let location = "ClassDecl::try_parse"@;
        match keyword_scan(src, c, Keyword::Class) {
            Ok(Some(c1)) => match needs_name(src, c1, location) {
                Err(e) => Err(e),
                Ok(c2) => match VariableList::scan_bracketed(src, c2, location) {
                    Err(e) => Err(e),
                    Ok(c3) => match ClassDecl::scan_extends(src, c3) {
                        Err(e) => Err(e),
                        Ok(c4) => found_at(ClassDecl::scan_fields(src, c4)),
                    },
                },
            },
            other => other,
        }
    }

    /// What reading `extends` and the name of the parent, which may be
    /// left out, comes to.
    pub open spec fn scan_extends(src: Arc<str>, c: nat) -> Result<nat, ParserError> {
        match at_keyword(src, c, Keyword::Extends) {
            Err(e) => Err(e),
            Ok(false) => Ok(c),
            Ok(true) => needs_name(src, past(src, c), "ClassDecl::try_parse"@),
        }
    }

    /// What reading `is`, the fields and `end`, which may be left out,
    /// comes to.
    pub open spec fn scan_fields(src: Arc<str>, c: nat) -> Result<nat, ParserError> {
        match at_keyword(src, c, Keyword::Is) {
            Err(e) => Err(e),
            Ok(false) => Ok(c),
            Ok(true) => match or_stay(VariableList::scan(src, past(src, c)), past(src, c)) {
                Err(e) => Err(e),
                Ok(c1) => needs_keyword(src, c1, Keyword::End, "ClassDecl::try_parse"@),
            },
        }
    }

    /// Reads `class` or `export class`, and says whether the class is exported.
    fn parse_keyword(tokenizer: &mut Tokenizer) -> (r: Result<Option<bool>, ParserError>)
        requires
            old(tokenizer).wf(),
        ensures
            parsed(old(tokenizer), final(tokenizer), r),
            follows(keyword_opening(old(tokenizer), Keyword::Class), r),
            r == keyword_read(old(tokenizer), Keyword::Class),
            took(old(tokenizer), final(tokenizer), keyword_tokens(r)),
            scanned(final(tokenizer), r) == keyword_scan(
                old(tokenizer).source(),
                old(tokenizer).cursor(),
                Keyword::Class,
            ),
    {
        if accept_keyword(tokenizer, Keyword::Class)? {
            return Ok(Some(false));
        }
        if accept_keywords(tokenizer, Keyword::Export, Keyword::Class)? {
            return Ok(Some(true));
        }
        Ok(None)
    }

    /// What reading a class comes to, as far as its keywords and the token
    /// behind them decide: a name must come there; a class that is read
    /// has that name, and is exported where `export` stood.
    pub open spec fn headed(tokenizer: &Tokenizer, r: Result<Option<ClassDecl>, ParserError>) -> bool {
        match keyword_read(tokenizer, Keyword::Class) {
            Err(e) => r matches Err(error) && error == e,
            Ok(None) => r matches Ok(None),
            Ok(Some(export)) => {
                let k: nat = if export {
                    2
                } else {
                    1
                };
                match tokenizer.ahead(k) {
                    Ok(Token { kind: TokenKind::Identifier(name), .. }) => r matches Ok(found)
                        ==> found matches Some(decl) && decl.export == export && decl.name
                        == name,
                    _ => refused(tokenizer, k, "ClassDecl::try_parse"@, r),
                }
            },
        }
    }

    /// The class without type parameters and without fields.
    pub open spec fn bare(slice: StringSlice, export: bool, name: String, extends: Option<String>) -> ClassDecl {
        ClassDecl { slice, export, name, generics: None, extends, params: None }
    }

    /// The class that the tokens spell where it has neither type
    /// parameters nor fields, and the number of its tokens: the keywords,
    /// the name, and `extends` with the name of the parent where it is
    /// there. The token behind them can be read and is not `is`.
    pub open spec fn plain(tokenizer: &Tokenizer) -> Option<(ClassDecl, nat)> {
        match keyword_read(tokenizer, Keyword::Class) {
            Ok(Some(export)) => {
                let k: nat = if export {
                    2
                } else {
                    1
                };
                match (tokenizer.ahead(0), tokenizer.ahead(k), tokenizer.ahead(k + 1)) {
                    (
                        Ok(first),
                        Ok(Token { kind: TokenKind::Identifier(name), slice }),
                        Ok(next),
                    ) => if next.kind == TokenKind::Keyword(Keyword::Extends) {
                        match (tokenizer.ahead(k + 2), tokenizer.ahead(k + 3)) {
                            (
                                Ok(Token { kind: TokenKind::Identifier(parent), slice: last }),
                                Ok(after),
                            ) => if after.kind != TokenKind::Keyword(Keyword::Is) {
                                Some(
                                    (
                                        ClassDecl::bare(
                                            first.slice.spec_merge(&last),
                                            export,
                                            name,
                                            Some(parent),
                                        ),
                                        k + 3,
                                    ),
                                )
                            } else {
                                None
                            },
                            _ => None,
                        }
                    } else if next.kind != TokenKind::Symbol(Symbol::BracketOpen) && next.kind
                        != TokenKind::Keyword(Keyword::Is) {
                        Some(
                            (ClassDecl::bare(first.slice.spec_merge(&slice), export, name, None), k + 1),
                        )
                    } else {
                        None
                    },
                    _ => None,
                }
            },
            _ => None,
        }
    }

    /// Reads a class declaration: `class name`, type parameters in
    /// brackets, `extends parent`, and `is` fields `end`, each of the
    /// last three if it is there.
    #[verifier::spinoff_prover]
    #[verifier::rlimit(50)]
    pub fn try_parse(tokenizer: &mut Tokenizer) -> (r: Result<Option<Self>, ParserError>)
        requires
            old(tokenizer).wf(),
        ensures
            parsed(old(tokenizer), final(tokenizer), r),
            follows(keyword_opening(old(tokenizer), Keyword::Class), r),
            r matches Ok(Some(node)) ==> node.slice.within(old(tokenizer).source()) && spans(
                old(tokenizer),
                node.slice,
            ),
            ClassDecl::headed(old(tokenizer), r),
            ClassDecl::plain(old(tokenizer)) matches Some(head) ==> r == Ok::<
                Option<ClassDecl>,
                ParserError,
            >(Some(head.0)) && took(old(tokenizer), final(tokenizer), head.1),
            scanned(final(tokenizer), r) == ClassDecl::scan(old(tokenizer).source(), old(tokenizer).cursor()),
    {
        proof {
            lemma_stream_shift(old(tokenizer).source(), old(tokenizer).cursor(), 1, 0);
            lemma_stream_shift(old(tokenizer).source(), old(tokenizer).cursor(), 1, 1);
            lemma_stream_shift(old(tokenizer).source(), old(tokenizer).cursor(), 2, 0);
            lemma_stream_shift(old(tokenizer).source(), old(tokenizer).cursor(), 2, 1);
            lemma_stream_shift(old(tokenizer).source(), old(tokenizer).cursor(), 3, 0);
            lemma_stream_shift(old(tokenizer).source(), old(tokenizer).cursor(), 3, 1);
            lemma_stream_shift(old(tokenizer).source(), old(tokenizer).cursor(), 4, 0);
            lemma_stream_shift(old(tokenizer).source(), old(tokenizer).cursor(), 4, 1);
            lemma_stream_shift(old(tokenizer).source(), old(tokenizer).cursor(), 5, 0);
        }
        let start = peek_slice(tokenizer)?;
        let export = match Self::parse_keyword(tokenizer)? {
            Some(export) => export,
            None => {
                return Ok(None);
            },
        };
        let (name, name_slice) = require_identifier(tokenizer, "ClassDecl::try_parse")?;
        let mut end = name_slice;
        let mut generics: Option<VariableList> = None;
        if accept_symbol(tokenizer, Symbol::BracketOpen)? {
            generics = VariableList::try_parse(tokenizer)?;
            require_symbol(tokenizer, Symbol::BracketClose, "ClassDecl::try_parse")?;
        }
        let mut extends: Option<String> = None;
        if accept_keyword(tokenizer, Keyword::Extends)? {
            let (parent, parent_slice) = require_identifier(tokenizer, "ClassDecl::try_parse")?;
            end = parent_slice;
            extends = Some(parent);
        }
        let mut params: Option<VariableList> = None;
        if accept_keyword(tokenizer, Keyword::Is)? {
            params = VariableList::try_parse(tokenizer)?;
            end = require_keyword(tokenizer, Keyword::End, "ClassDecl::try_parse")?;
        }
        Ok(Some(ClassDecl { slice: start.merge(&end), export, name, generics, extends, params }))
    }
}

} // verus!
