//! Import declarations.

use std::sync::Arc;
use vstd::prelude::*;

use crate::parse_tree::{at_keyword, found_at, moves, needs, needs_keyword, needs_name, past, scanned, stuck, tok, spans, accept_identifier, accept_keyword, follows, lemma_stream_shift, opens, opens_keyword, parsed, peek_slice, require_identifier, require_keyword, require_string, ParserError};
use crate::string::StringSlice;
use crate::tokenizer::token::{Keyword, Token, TokenKind};
use crate::tokenizer::{TokenizeError, Tokenizer};

verus! {

#[derive(Debug, Clone, PartialEq, Eq)]
pub struct ImportDecl {
    pub slice: StringSlice,
    pub kind: ImportKind,
}

#[derive(Debug, Clone, PartialEq, Eq)]
pub enum ImportKind {
    Direct(DirectImport),
    From(FromImport),
}

/// `import "file.bur"`
#[derive(Debug, Clone, PartialEq, Eq)]
pub struct DirectImport {
    pub slice: StringSlice,
    pub file: String,
}

/// `from "file.bur" import x`
#[derive(Debug, Clone, PartialEq, Eq)]
pub struct FromImport {
    pub slice: StringSlice,
    pub file: String,
    pub values: Vec<FromInportValue>,
}

#[derive(Debug, Clone, PartialEq, Eq)]
pub struct FromInportValue {
    pub slice: StringSlice,
    pub kind: FromImportKind,
}

#[derive(Debug, Clone, PartialEq, Eq)]
pub enum FromImportKind {
    /// `everything as name`: the module itself, bound to `name`.
    Everything { name: String },
    /// `name` or `name as rename`: one member of the module.
    Single { name: String, rename: Option<String> },
}

impl ImportDecl {
    /// What reading an import comes to at the cursor `c`.
    pub open spec fn scan(src: Arc<str>, c: nat) -> Result<Option<nat>, ParserError> {
        match DirectImport::scan(src, c) {
            Ok(None) => FromImport::scan(src, c),
            other => other,
        }
    }

    /// The import of values that `r` holds, if it holds one.
    pub open spec fn values_of(r: Result<Option<ImportDecl>, ParserError>) -> Result<
        Option<FromImport>,
        ParserError,
    > {
        match r {
            Err(e) => Err(e),
            Ok(Some(ImportDecl { kind: ImportKind::From(from), .. })) => Ok(Some(from)),
            Ok(_) => Ok(None),
        }
    }

    /// What reading an import comes to: the direct import that the two
    /// next tokens spell, if they spell one, under its own span; else what
    /// reading an import of values comes to, under its own span.
    pub open spec fn read(tokenizer: &Tokenizer, r: Result<Option<ImportDecl>, ParserError>) -> bool {
        match DirectImport::read(tokenizer.ahead(0), tokenizer.ahead(1)) {
            Err(e) => r matches Err(error) && error == e,
            Ok(Some(direct)) => r == Ok::<Option<ImportDecl>, ParserError>(
                Some(ImportDecl { slice: direct.slice, kind: ImportKind::Direct(direct) }),
            ),
            Ok(None) => {
                &&& r matches Ok(Some(decl)) ==> decl.kind matches ImportKind::From(from)
                    && decl.slice == from.slice
                &&& FromImport::headed(tokenizer, ImportDecl::values_of(r))
            },
        }
    }

    /// Reads an import: `import "file"` or `from "file" import` values.
    pub fn try_parse(tokenizer: &mut Tokenizer) -> (r: Result<Option<Self>, ParserError>)
        requires
            old(tokenizer).wf(),
        ensures
            parsed(old(tokenizer), final(tokenizer), r),
            follows(opens(old(tokenizer), |kind: TokenKind| kind == TokenKind::Keyword(Keyword::Import) || kind == TokenKind::Keyword(Keyword::From)), r),
            r matches Ok(Some(node)) ==> node.slice.within(old(tokenizer).source()) && spans(
                old(tokenizer),
                node.slice,
            ),
            ImportDecl::read(old(tokenizer), r),
            scanned(final(tokenizer), r) == ImportDecl::scan(old(tokenizer).source(), old(tokenizer).cursor()),
    {
        if let Some(direct) = DirectImport::try_parse(tokenizer)? {
            return Ok(
                Some(ImportDecl { slice: direct.slice.duplicate(), kind: ImportKind::Direct(direct) }),
            );
        }
        match FromImport::try_parse(tokenizer)? {
            Some(from) => Ok(
                Some(ImportDecl { slice: from.slice.duplicate(), kind: ImportKind::From(from) }),
            ),
            None => Ok(None),
        }
    }
}

impl DirectImport {
    /// What reading a direct import comes to at the cursor `c`.
    pub open spec fn scan(src: Arc<str>, c: nat) -> Result<Option<nat>, ParserError> {
        match at_keyword(src, c, Keyword::Import) {
            Err(e) => Err(e),
            Ok(false) => Ok(None),
            Ok(true) => found_at(
                needs(
                    src,
                    past(src, c),
                    |kind: TokenKind| kind is String,
                    "DirectImport::try_parse"@,
                ),
            ),
        }
    }

    /// What reading a direct import makes of the two next tokens: nothing
    /// where the first is not `import`; the import of the file that the
    /// second names, spanning both; an error where the second is no string.
    pub open spec fn read(
        one: Result<Token, TokenizeError>,
        two: Result<Token, TokenizeError>,
    ) -> Result<Option<DirectImport>, ParserError> {
        match one {
            Err(e) => Err(ParserError::TokenizeError(e)),
            Ok(first) => if first.kind != TokenKind::Keyword(Keyword::Import) {
                Ok(None)
            } else {
                match two {
                    Err(e) => Err(ParserError::TokenizeError(e)),
                    Ok(second) => match second.kind {
                        TokenKind::String(file) => Ok(
                            Some(
                                DirectImport {
                                    slice: first.slice.spec_merge(&second.slice),
                                    file,
                                },
                            ),
                        ),
                        _ => Err(ParserError::unexpected(second, "DirectImport::try_parse"@)),
                    },
                }
            },
        }
    }

    /// Reads `import` and the name of a file.
    pub fn try_parse(tokenizer: &mut Tokenizer) -> (r: Result<Option<Self>, ParserError>)
        requires
            old(tokenizer).wf(),
        ensures
            parsed(old(tokenizer), final(tokenizer), r),
            follows(opens_keyword(old(tokenizer), Keyword::Import), r),
            r matches Ok(Some(node)) ==> node.slice.within(old(tokenizer).source()) && spans(
                old(tokenizer),
                node.slice,
            ),
            r == DirectImport::read(old(tokenizer).ahead(0), old(tokenizer).ahead(1)),
            r matches Ok(Some(_)) ==> final(tokenizer).cursor() == old(tokenizer).behind(2),
            scanned(final(tokenizer), r) == DirectImport::scan(old(tokenizer).source(), old(tokenizer).cursor()),
    {
        let start = peek_slice(tokenizer)?;
        proof {
            lemma_stream_shift(old(tokenizer).source(), old(tokenizer).cursor(), 1, 0);
            lemma_stream_shift(old(tokenizer).source(), old(tokenizer).cursor(), 1, 1);
        }
        if !accept_keyword(tokenizer, Keyword::Import)? {
            return Ok(None);
        }
        let (file, end) = require_string(tokenizer, "DirectImport::try_parse")?;
        Ok(Some(DirectImport { slice: start.merge(&end), file }))
    }
}

impl FromImport {
    /// What reading an import of values comes to at the cursor `c`.
    pub open spec fn scan(src: Arc<str>, c: nat) -> Result<Option<nat>, ParserError> {
        let location = "FromImport::try_parse"@;
        match at_keyword(src, c, Keyword::From) {
            Err(e) => Err(e),
            Ok(false) => Ok(None),
            Ok(true) => match needs(src, past(src, c), |kind: TokenKind| kind is String, location) {
                Err(e) => Err(e),
                Ok(c1) => match needs_keyword(src, c1, Keyword::Import, location) {
                    Err(e) => Err(e),
                    Ok(c2) => FromImport::scan_values(src, c2),
                },
            },
        }
    }

    /// What reading the values comes to from the cursor `c` on: values
    /// are read as long as one begins.
    pub open spec fn scan_values(src: Arc<str>, c: nat) -> Result<Option<nat>, ParserError>
        decreases src@.len() - c,
    {
        match FromInportValue::scan(src, c) {
            Err(e) => Err(e),
            Ok(None) => Ok(Some(c)),
            Ok(Some(c1)) => if moves(src, c, c1) {
                FromImport::scan_values(src, c1)
            } else {
                Err(stuck())
            },
        }
    }

    /// What reading the values behind `from "file" import` comes to, as
    /// far as the first of them decides: its error; an import without
    /// values, which spans the three tokens; or, if an import is read, one
    /// that begins with that value.
    pub open spec fn valued(
        first: Token,
        file: String,
        third: Token,
        value: Result<Option<FromInportValue>, ParserError>,
        r: Result<Option<FromImport>, ParserError>,
    ) -> bool {
        match value {
            Err(e) => r matches Err(error) && error == e,
            Ok(None) => {
                &&& r matches Ok(Some(from))
                &&& from.file == file
                &&& from.values@.len() == 0
                &&& from.slice == first.slice.spec_merge(&third.slice)
            },
            Ok(Some(found)) => r matches Ok(got) ==> {
                &&& got matches Some(from)
                &&& from.file == file
                &&& from.values@.len() >= 1
                &&& from.values@[0] == found
            },
        }
    }

    /// What reading an import of values comes to, as far as its head and
    /// its first value decide: `from`, the name of a file and `import`
    /// must come in this order.
    pub open spec fn headed(tokenizer: &Tokenizer, r: Result<Option<FromImport>, ParserError>) -> bool {
        match tokenizer.ahead(0) {
            Err(e) => r matches Err(error) && error == ParserError::TokenizeError(e),
            Ok(first) => if first.kind != TokenKind::Keyword(Keyword::From) {
                r matches Ok(None)
            } else {
                match tokenizer.ahead(1) {
                    Err(e) => r matches Err(error) && error == ParserError::TokenizeError(e),
                    Ok(second) => match second.kind {
                        TokenKind::String(file) => match tokenizer.ahead(2) {
                            Err(e) => r matches Err(error) && error == ParserError::TokenizeError(
                                e,
                            ),
                            Ok(third) => if third.kind != TokenKind::Keyword(Keyword::Import) {
                                r matches Err(error) && error == ParserError::unexpected(
                                    third,
                                    "FromImport::try_parse"@,
                                )
                            } else {
                                FromImport::valued(
                                    first,
                                    file,
                                    third,
                                    FromInportValue::read(
                                        tokenizer.ahead(3),
                                        tokenizer.ahead(4),
                                        tokenizer.ahead(5),
                                    ),
                                    r,
                                )
                            },
                        },
                        _ => r matches Err(error) && error == ParserError::unexpected(
                            second,
                            "FromImport::try_parse"@,
                        ),
                    },
                }
            },
        }
    }

    /// Reads `from`, the name of a file, `import` and the values.
    #[verifier::spinoff_prover]
    #[verifier::rlimit(50)]
    pub fn try_parse(tokenizer: &mut Tokenizer) -> (r: Result<Option<Self>, ParserError>)
        requires
            old(tokenizer).wf(),
        ensures
            parsed(old(tokenizer), final(tokenizer), r),
            follows(opens_keyword(old(tokenizer), Keyword::From), r),
            r matches Ok(Some(node)) ==> node.slice.within(old(tokenizer).source()) && spans(
                old(tokenizer),
                node.slice,
            ),
            FromImport::headed(old(tokenizer), r),
            scanned(final(tokenizer), r) == FromImport::scan(old(tokenizer).source(), old(tokenizer).cursor()),
    {
        let start = peek_slice(tokenizer)?;
        proof {
            lemma_stream_shift(old(tokenizer).source(), old(tokenizer).cursor(), 1, 0);
            lemma_stream_shift(old(tokenizer).source(), old(tokenizer).cursor(), 1, 1);
            lemma_stream_shift(old(tokenizer).source(), old(tokenizer).cursor(), 2, 0);
            lemma_stream_shift(old(tokenizer).source(), old(tokenizer).cursor(), 2, 1);
            lemma_stream_shift(old(tokenizer).source(), old(tokenizer).cursor(), 3, 0);
            lemma_stream_shift(old(tokenizer).source(), old(tokenizer).cursor(), 3, 1);
            lemma_stream_shift(old(tokenizer).source(), old(tokenizer).cursor(), 3, 2);
        }
        if !accept_keyword(tokenizer, Keyword::From)? {
            return Ok(None);
        }
        let (file, _) = require_string(tokenizer, "FromImport::try_parse")?;
        let mut end = require_keyword(tokenizer, Keyword::Import, "FromImport::try_parse")?;
        let mut values: Vec<FromInportValue> = Vec::new();
        let mut more: bool = true;
        let ghost value = FromInportValue::read(
            old(tokenizer).ahead(3),
            old(tokenizer).ahead(4),
            old(tokenizer).ahead(5),
        );
        while more
            invariant
                FromImport::scan(old(tokenizer).source(), old(tokenizer).cursor()) == if more {
                    FromImport::scan_values(tokenizer.source(), tokenizer.cursor())
                } else {
                    Ok::<Option<nat>, ParserError>(Some(tokenizer.cursor()))
                },
                tokenizer.wf(),
                old(tokenizer).ahead(0) matches Ok(first) && first.kind == TokenKind::Keyword(
                    Keyword::From,
                ) && start == first.slice,
                old(tokenizer).ahead(1) matches Ok(second) && second.kind == TokenKind::String(file),
                old(tokenizer).ahead(2) matches Ok(third) && third.kind == TokenKind::Keyword(
                    Keyword::Import,
                ) && (values@.len() == 0 ==> end == third.slice),
                value == FromInportValue::read(
                    old(tokenizer).ahead(3),
                    old(tokenizer).ahead(4),
                    old(tokenizer).ahead(5),
                ),
                values@.len() == 0 && more ==> tokenizer.cursor() == old(tokenizer).behind(3),
                values@.len() == 0 && !more ==> value matches Ok(None),
                values@.len() > 0 ==> value == Ok::<Option<FromInportValue>, ParserError>(
                    Some(values@[0]),
                ),
                opens_keyword(old(tokenizer), Keyword::From) is Begins,
                end.within(old(tokenizer).source()),
                start.within(old(tokenizer).source()),
                tokenizer.source() == old(tokenizer).source(),
                tokenizer.remaining() < old(tokenizer).remaining(),
                old(tokenizer).cursor() < tokenizer.cursor() <= tokenizer.source()@.len(),
                tokenizer.consumed() > old(tokenizer).consumed(),
            decreases tokenizer.remaining() + if more { 1nat } else { 0nat },
        {
            match FromInportValue::try_parse(tokenizer)? {
                Some(value) => {
                    end = value.slice.duplicate();
                    values.push(value);
                },
                None => {
                    more = false;
                },
            }
        }
        Ok(Some(FromImport { slice: start.merge(&end), file, values }))
    }
}

impl FromInportValue {
    /// What reading one imported value comes to at the cursor `c`.
    pub open spec fn scan(src: Arc<str>, c: nat) -> Result<Option<nat>, ParserError> {
        let location = "FromInportValue::try_parse"@;
        match tok(src, c) {
            Err(e) => Err(ParserError::TokenizeError(e)),
            Ok(first) => match first.kind {
                TokenKind::Keyword(Keyword::Everything) => match needs_keyword(
                    src,
                    past(src, c),
                    Keyword::As,
                    location,
                ) {
                    Err(e) => Err(e),
                    Ok(c1) => found_at(needs_name(src, c1, location)),
                },
                TokenKind::Identifier(_) => match FromInportValue::scan_as(src, past(src, c)) {
                    Err(e) => Err(e),
                    Ok(Some(c1)) => Ok(Some(c1)),
                    Ok(None) => Ok(Some(past(src, c))),
                },
                _ => Ok(None),
            },
        }
    }

    /// What reading `as name` comes to at the cursor `c`.
    pub open spec fn scan_as(src: Arc<str>, c: nat) -> Result<Option<nat>, ParserError> {
        match at_keyword(src, c, Keyword::As) {
            Err(e) => Err(e),
            Ok(false) => Ok(None),
            Ok(true) => found_at(needs_name(src, past(src, c), "FromInportValue::try_parse_as"@)),
        }
    }

    /// What reading `everything as name` makes of the three next tokens,
    /// the first of which is `everything`.
    pub open spec fn read_everything(
        first: Token,
        two: Result<Token, TokenizeError>,
        three: Result<Token, TokenizeError>,
    ) -> Result<Option<FromInportValue>, ParserError> {
        match two {
            Err(e) => Err(ParserError::TokenizeError(e)),
            Ok(second) => if second.kind != TokenKind::Keyword(Keyword::As) {
                Err(ParserError::unexpected(second, "FromInportValue::try_parse"@))
            } else {
                match three {
                    Err(e) => Err(ParserError::TokenizeError(e)),
                    Ok(third) => match third.kind {
                        TokenKind::Identifier(name) => Ok(
                            Some(
                                FromInportValue {
                                    slice: first.slice.spec_merge(&third.slice),
                                    kind: FromImportKind::Everything { name },
                                },
                            ),
                        ),
                        _ => Err(ParserError::unexpected(third, "FromInportValue::try_parse"@)),
                    },
                }
            },
        }
    }

    /// What reading one imported value makes of the three next tokens: the
    /// whole module under a name; one member, renamed where `as` and a
    /// name follow; nothing where the first token begins neither.
    pub open spec fn read(
        one: Result<Token, TokenizeError>,
        two: Result<Token, TokenizeError>,
        three: Result<Token, TokenizeError>,
    ) -> Result<Option<FromInportValue>, ParserError> {
        match one {
            Err(e) => Err(ParserError::TokenizeError(e)),
            Ok(first) => match first.kind {
                TokenKind::Keyword(Keyword::Everything) => FromInportValue::read_everything(
                    first,
                    two,
                    three,
                ),
                TokenKind::Identifier(name) => match FromInportValue::read_as(two, three) {
                    Err(e) => Err(e),
                    Ok(Some(found)) => Ok(
                        Some(
                            FromInportValue {
                                slice: first.slice.spec_merge(&found.1),
                                kind: FromImportKind::Single { name, rename: Some(found.0) },
                            },
                        ),
                    ),
                    Ok(None) => Ok(
                        Some(
                            FromInportValue {
                                slice: first.slice,
                                kind: FromImportKind::Single { name, rename: None },
                            },
                        ),
                    ),
                },
                _ => Ok(None),
            },
        }
    }

    /// Reads one imported value: `everything as name`, `name`, or
    /// `name as other`.
    #[verifier::spinoff_prover]
    #[verifier::rlimit(50)]
    pub fn try_parse(tokenizer: &mut Tokenizer) -> (r: Result<Option<Self>, ParserError>)
        requires
            old(tokenizer).wf(),
        ensures
            parsed(old(tokenizer), final(tokenizer), r),
            follows(opens(old(tokenizer), |kind: TokenKind| kind == TokenKind::Keyword(Keyword::Everything) || kind is Identifier), r),
            r matches Ok(Some(node)) ==> node.slice.within(old(tokenizer).source()) && spans(
                old(tokenizer),
                node.slice,
            ),
            r == FromInportValue::read(
                old(tokenizer).ahead(0),
                old(tokenizer).ahead(1),
                old(tokenizer).ahead(2),
            ),
            scanned(final(tokenizer), r) == FromInportValue::scan(old(tokenizer).source(), old(tokenizer).cursor()),
    {
        let start = peek_slice(tokenizer)?;
        proof {
            lemma_stream_shift(old(tokenizer).source(), old(tokenizer).cursor(), 1, 0);
            lemma_stream_shift(old(tokenizer).source(), old(tokenizer).cursor(), 1, 1);
            lemma_stream_shift(old(tokenizer).source(), old(tokenizer).cursor(), 2, 0);
        }
        if accept_keyword(tokenizer, Keyword::Everything)? {
            require_keyword(tokenizer, Keyword::As, "FromInportValue::try_parse")?;
            let (name, end) = require_identifier(tokenizer, "FromInportValue::try_parse")?;
            return Ok(
                Some(
                    FromInportValue {
                        slice: start.merge(&end),
                        kind: FromImportKind::Everything { name },
                    },
                ),
            );
        }
        let name = match accept_identifier(tokenizer)? {
            Some(name) => name,
            None => {
                return Ok(None);
            },
        };
        if let Some((rename, end)) = Self::try_parse_as(tokenizer)? {
            return Ok(
                Some(
                    FromInportValue {
                        slice: start.merge(&end),
                        kind: FromImportKind::Single { name, rename: Some(rename) },
                    },
                ),
            );
        }
        Ok(Some(FromInportValue { slice: start, kind: FromImportKind::Single { name, rename: None } }))
    }

    /// What reading `as name` makes of the two next tokens: nothing where
    /// the first is not `as`; the name that the second spells, with the
    /// span of both; an error where the second is no name.
    pub open spec fn read_as(
        one: Result<Token, TokenizeError>,
        two: Result<Token, TokenizeError>,
    ) -> Result<Option<(String, StringSlice)>, ParserError> {
        match one {
            Err(e) => Err(ParserError::TokenizeError(e)),
            Ok(first) => if first.kind != TokenKind::Keyword(Keyword::As) {
                Ok(None)
            } else {
                match two {
                    Err(e) => Err(ParserError::TokenizeError(e)),
                    Ok(second) => match second.kind {
                        TokenKind::Identifier(name) => Ok(
                            Some((name, first.slice.spec_merge(&second.slice))),
                        ),
                        _ => Err(
                            ParserError::unexpected(second, "FromInportValue::try_parse_as"@),
                        ),
                    },
                }
            },
        }
    }

    /// Reads `as name`.
    fn try_parse_as(tokenizer: &mut Tokenizer) -> (r: Result<
        Option<(String, StringSlice)>,
        ParserError,
    >)
        requires
            old(tokenizer).wf(),
        ensures
            parsed(old(tokenizer), final(tokenizer), r),
            follows(opens_keyword(old(tokenizer), Keyword::As), r),
            r matches Ok(Some(found)) ==> found.1.within(old(tokenizer).source()),
            r == FromInportValue::read_as(old(tokenizer).ahead(0), old(tokenizer).ahead(1)),
            r matches Ok(Some(_)) ==> final(tokenizer).cursor() == old(tokenizer).behind(2),
            r matches Ok(None) ==> final(tokenizer).cursor() == old(tokenizer).cursor(),
            scanned(final(tokenizer), r) == FromInportValue::scan_as(old(tokenizer).source(), old(tokenizer).cursor()),
    {
        let start = peek_slice(tokenizer)?;
        proof {
            lemma_stream_shift(old(tokenizer).source(), old(tokenizer).cursor(), 1, 0);
            lemma_stream_shift(old(tokenizer).source(), old(tokenizer).cursor(), 1, 1);
        }
        if !accept_keyword(tokenizer, Keyword::As)? {
            return Ok(None);
        }
        let (name, end) = require_identifier(tokenizer, "FromInportValue::try_parse_as")?;
        Ok(Some((name, start.merge(&end))))
    }
}

} // verus!
