//! Tokens and their kinds.

use vstd::prelude::*;

use crate::string::parser::StringParser;
use crate::string::StringSlice;
use vstd::string::StringExecFns;

verus! {

/// A family of reserved words, each with one spelling.
pub trait Keywords: Sized {
    /// The word spelled `s`, if there is one.
    fn parse(s: &str) -> Option<Self>;

    /// The spelling of the word.
    fn stringify(self) -> String;
}

#[derive(Debug, Clone, PartialEq, Eq)]
pub struct Token {
    pub slice: StringSlice,
    pub kind: TokenKind,
}

#[derive(Debug, Clone, PartialEq, Eq)]
pub enum TokenKind {
    Identifier(String),
    String(String),
    Number(Number),
    Symbol(Symbol),
    Keyword(Keyword),
    Eof,
}

/// A number as written. A number with a fraction keeps its whole part and
/// the digits after the point, so that no precision is lost here.
#[derive(Debug, Clone, PartialEq, Eq)]
pub enum Number {
    Integer(i64),
    Floating { whole: i64, fraction: String },
}

#[derive(Debug, Clone, Copy, PartialEq, Eq, Structural)]
pub enum Keyword {
    Declare,
    Module,
    Let,
    Const,
    Function,
    Class,
    Extends,
    Where,
    Prototype,
    While,
    Until,
    For,
    Each,
    In,
    If,
    Else,
    Do,
    Then,
    End,
    This,
    NoneKeyword,
    True,
    False,
    Infinity,
    NaN,
    From,
    Import,
    Export,
    Everything,
    As,
    Is,
    Not,
    And,
    Or,
    Return,
    Break,
    Continue,
    Throw,
    Try,
    Catch,
}

#[derive(Debug, Clone, Copy, PartialEq, Eq, Structural)]
pub enum Symbol {
    BracketOpen,
    BracketClose,
    BraceOpen,
    BraceClose,
    ParenOpen,
    ParenClose,
    Add,
    Sub,
    Mul,
    Div,
    Rem,
    Greater,
    Less,
    GreaterEqual,
    LessEqual,
    Equal,
    NotEqual,
    Colon,
    Assign,
    Comma,
    Dot,
    Semicolon,
}

/// Whether two string slices hold the same characters.
pub fn same_text(a: &str, b: &str) -> (r: bool)
    ensures
        r == (a@ == b@),
{
    let n: usize = a.unicode_len();
    if n != b.unicode_len() {
        return false;
    }
    let mut i: usize = 0;
    while i < n
        invariant
            n == a@.len(),
            n == b@.len(),
            i <= n,
            forall|k: int| 0 <= k < i ==> a@[k] == b@[k],
        decreases n - i,
    {
        if a.get_char(i) != b.get_char(i) {
            return false;
        }
        i = i + 1;
    }
    assert(a@ =~= b@);
    true
}

impl TokenKind {
    pub fn is_eof(&self) -> (r: bool)
        ensures
            r == (*self is Eof),
    {
        match self {
            TokenKind::Eof => true,
            _ => false,
        }
    }
}

impl Token {
    /// A copy of the token.
    pub fn duplicate(&self) -> (r: Token)
        ensures
            r == *self,
    {
        let kind = match &self.kind {
            TokenKind::Identifier(name) => TokenKind::Identifier(name.clone()),
            TokenKind::String(text) => TokenKind::String(text.clone()),
            TokenKind::Number(Number::Integer(value)) => TokenKind::Number(Number::Integer(*value)),
            TokenKind::Number(Number::Floating { whole, fraction }) => TokenKind::Number(
                Number::Floating { whole: *whole, fraction: fraction.clone() },
            ),
            TokenKind::Symbol(symbol) => TokenKind::Symbol(*symbol),
            TokenKind::Keyword(keyword) => TokenKind::Keyword(*keyword),
            TokenKind::Eof => TokenKind::Eof,
        };
        Token { slice: self.slice.duplicate(), kind }
    }
}

impl Keyword {
    /// How the keyword is written.
    pub open spec fn spelling(self) -> Seq<char> {
        match self {
            Keyword::Declare => "declare"@,
            Keyword::Module => "module"@,
            Keyword::Let => "let"@,
            Keyword::Const => "const"@,
            Keyword::Function => "function"@,
            Keyword::Class => "class"@,
            Keyword::Extends => "extends"@,
            Keyword::Where => "where"@,
            Keyword::Prototype => "prototype"@,
            Keyword::While => "while"@,
            Keyword::Until => "until"@,
            Keyword::For => "for"@,
            Keyword::Each => "each"@,
            Keyword::In => "in"@,
            Keyword::If => "if"@,
            Keyword::Else => "else"@,
            Keyword::Do => "do"@,
            Keyword::Then => "then"@,
            Keyword::End => "end"@,
            Keyword::This => "this"@,
            Keyword::NoneKeyword => "none"@,
            Keyword::True => "true"@,
            Keyword::False => "false"@,
            Keyword::Infinity => "Infinity"@,
            Keyword::NaN => "NaN"@,
            Keyword::From => "from"@,
            Keyword::Import => "import"@,
            Keyword::Export => "export"@,
            Keyword::Everything => "everything"@,
            Keyword::As => "as"@,
            Keyword::Is => "is"@,
            Keyword::Not => "not"@,
            Keyword::And => "and"@,
            Keyword::Or => "or"@,
            Keyword::Return => "return"@,
            Keyword::Break => "break"@,
            Keyword::Continue => "continue"@,
            Keyword::Throw => "throw"@,
            Keyword::Try => "try"@,
            Keyword::Catch => "catch"@,
        }
    }
}

/// The keyword that is written `text`, if there is one.
pub open spec fn keyword_of(text: Seq<char>) -> Option<Keyword> {
    if text == "declare"@ {
        Some(Keyword::Declare)
    } else if text == "module"@ {
        Some(Keyword::Module)
    } else if text == "let"@ {
        Some(Keyword::Let)
    } else if text == "const"@ {
        Some(Keyword::Const)
    } else if text == "function"@ {
        Some(Keyword::Function)
    } else if text == "class"@ {
        Some(Keyword::Class)
    } else if text == "extends"@ {
        Some(Keyword::Extends)
    } else if text == "where"@ {
        Some(Keyword::Where)
    } else if text == "prototype"@ {
        Some(Keyword::Prototype)
    } else if text == "while"@ {
        Some(Keyword::While)
    } else if text == "until"@ {
        Some(Keyword::Until)
    } else if text == "for"@ {
        Some(Keyword::For)
    } else if text == "each"@ {
        Some(Keyword::Each)
    } else if text == "in"@ {
        Some(Keyword::In)
    } else if text == "if"@ {
        Some(Keyword::If)
    } else if text == "else"@ {
        Some(Keyword::Else)
    } else if text == "do"@ {
        Some(Keyword::Do)
    } else if text == "then"@ {
        Some(Keyword::Then)
    } else if text == "end"@ {
        Some(Keyword::End)
    } else if text == "this"@ {
        Some(Keyword::This)
    } else if text == "none"@ {
        Some(Keyword::NoneKeyword)
    } else if text == "true"@ {
        Some(Keyword::True)
    } else if text == "false"@ {
        Some(Keyword::False)
    } else if text == "Infinity"@ {
        Some(Keyword::Infinity)
    } else if text == "NaN"@ {
        Some(Keyword::NaN)
    } else if text == "from"@ {
        Some(Keyword::From)
    } else if text == "import"@ {
        Some(Keyword::Import)
    } else if text == "export"@ {
        Some(Keyword::Export)
    } else if text == "everything"@ {
        Some(Keyword::Everything)
    } else if text == "as"@ {
        Some(Keyword::As)
    } else if text == "is"@ {
        Some(Keyword::Is)
    } else if text == "not"@ {
        Some(Keyword::Not)
    } else if text == "and"@ {
        Some(Keyword::And)
    } else if text == "or"@ {
        Some(Keyword::Or)
    } else if text == "return"@ {
        Some(Keyword::Return)
    } else if text == "break"@ {
        Some(Keyword::Break)
    } else if text == "continue"@ {
        Some(Keyword::Continue)
    } else if text == "throw"@ {
        Some(Keyword::Throw)
    } else if text == "try"@ {
        Some(Keyword::Try)
    } else if text == "catch"@ {
        Some(Keyword::Catch)
    } else {
        None
    }
}

impl Keywords for Keyword {
    fn parse(s: &str) -> (r: Option<Self>)
        ensures
            r == keyword_of(s@),
    {
        if same_text(s, "declare") {
            return Some(Keyword::Declare);
        }
        if same_text(s, "module") {
            return Some(Keyword::Module);
        }
        if same_text(s, "let") {
            return Some(Keyword::Let);
        }
        if same_text(s, "const") {
            return Some(Keyword::Const);
        }
        if same_text(s, "function") {
            return Some(Keyword::Function);
        }
        if same_text(s, "class") {
            return Some(Keyword::Class);
        }
        if same_text(s, "extends") {
            return Some(Keyword::Extends);
        }
        if same_text(s, "where") {
            return Some(Keyword::Where);
        }
        if same_text(s, "prototype") {
            return Some(Keyword::Prototype);
        }
        if same_text(s, "while") {
            return Some(Keyword::While);
        }
        if same_text(s, "until") {
            return Some(Keyword::Until);
        }
        if same_text(s, "for") {
            return Some(Keyword::For);
        }
        if same_text(s, "each") {
            return Some(Keyword::Each);
        }
        if same_text(s, "in") {
            return Some(Keyword::In);
        }
        if same_text(s, "if") {
            return Some(Keyword::If);
        }
        if same_text(s, "else") {
            return Some(Keyword::Else);
        }
        if same_text(s, "do") {
            return Some(Keyword::Do);
        }
        if same_text(s, "then") {
            return Some(Keyword::Then);
        }
        if same_text(s, "end") {
            return Some(Keyword::End);
        }
        if same_text(s, "this") {
            return Some(Keyword::This);
        }
        if same_text(s, "none") {
            return Some(Keyword::NoneKeyword);
        }
        if same_text(s, "true") {
            return Some(Keyword::True);
        }
        if same_text(s, "false") {
            return Some(Keyword::False);
        }
        if same_text(s, "Infinity") {
            return Some(Keyword::Infinity);
        }
        if same_text(s, "NaN") {
            return Some(Keyword::NaN);
        }
        if same_text(s, "from") {
            return Some(Keyword::From);
        }
        if same_text(s, "import") {
            return Some(Keyword::Import);
        }
        if same_text(s, "export") {
            return Some(Keyword::Export);
        }
        if same_text(s, "everything") {
            return Some(Keyword::Everything);
        }
        if same_text(s, "as") {
            return Some(Keyword::As);
        }
        if same_text(s, "is") {
            return Some(Keyword::Is);
        }
        if same_text(s, "not") {
            return Some(Keyword::Not);
        }
        if same_text(s, "and") {
            return Some(Keyword::And);
        }
        if same_text(s, "or") {
            return Some(Keyword::Or);
        }
        if same_text(s, "return") {
            return Some(Keyword::Return);
        }
        if same_text(s, "break") {
            return Some(Keyword::Break);
        }
        if same_text(s, "continue") {
            return Some(Keyword::Continue);
        }
        if same_text(s, "throw") {
            return Some(Keyword::Throw);
        }
        if same_text(s, "try") {
            return Some(Keyword::Try);
        }
        if same_text(s, "catch") {
            return Some(Keyword::Catch);
        }
        None
    }

    fn stringify(self) -> (r: String)
        ensures
            r@ == self.spelling(),
    {
        match self {
            Keyword::Declare => String::from_str("declare"),
            Keyword::Module => String::from_str("module"),
            Keyword::Let => String::from_str("let"),
            Keyword::Const => String::from_str("const"),
            Keyword::Function => String::from_str("function"),
            Keyword::Class => String::from_str("class"),
            Keyword::Extends => String::from_str("extends"),
            Keyword::Where => String::from_str("where"),
            Keyword::Prototype => String::from_str("prototype"),
            Keyword::While => String::from_str("while"),
            Keyword::Until => String::from_str("until"),
            Keyword::For => String::from_str("for"),
            Keyword::Each => String::from_str("each"),
            Keyword::In => String::from_str("in"),
            Keyword::If => String::from_str("if"),
            Keyword::Else => String::from_str("else"),
            Keyword::Do => String::from_str("do"),
            Keyword::Then => String::from_str("then"),
            Keyword::End => String::from_str("end"),
            Keyword::This => String::from_str("this"),
            Keyword::NoneKeyword => String::from_str("none"),
            Keyword::True => String::from_str("true"),
            Keyword::False => String::from_str("false"),
            Keyword::Infinity => String::from_str("Infinity"),
            Keyword::NaN => String::from_str("NaN"),
            Keyword::From => String::from_str("from"),
            Keyword::Import => String::from_str("import"),
            Keyword::Export => String::from_str("export"),
            Keyword::Everything => String::from_str("everything"),
            Keyword::As => String::from_str("as"),
            Keyword::Is => String::from_str("is"),
            Keyword::Not => String::from_str("not"),
            Keyword::And => String::from_str("and"),
            Keyword::Or => String::from_str("or"),
            Keyword::Return => String::from_str("return"),
            Keyword::Break => String::from_str("break"),
            Keyword::Continue => String::from_str("continue"),
            Keyword::Throw => String::from_str("throw"),
            Keyword::Try => String::from_str("try"),
            Keyword::Catch => String::from_str("catch"),
        }
    }
}

impl Symbol {
    /// How the symbol is written.
    pub open spec fn spelling(self) -> Seq<char> {
        match self {
            Symbol::Colon => ":"@,
            Symbol::Dot => "."@,
            Symbol::Comma => ","@,
            Symbol::Semicolon => ";"@,
            Symbol::GreaterEqual => ">="@,
            Symbol::Greater => ">"@,
            Symbol::LessEqual => "<="@,
            Symbol::Less => "<"@,
            Symbol::NotEqual => "!="@,
            Symbol::Equal => "=="@,
            Symbol::Assign => "="@,
            Symbol::Mul => "*"@,
            Symbol::Rem => "%"@,
            Symbol::Div => "/"@,
            Symbol::Add => "+"@,
            Symbol::Sub => "-"@,
            Symbol::BracketOpen => "["@,
            Symbol::BracketClose => "]"@,
            Symbol::ParenOpen => "("@,
            Symbol::ParenClose => ")"@,
            Symbol::BraceOpen => "{"@,
            Symbol::BraceClose => "}"@,
        }
    }

    /// The order in which the symbols are tried. A symbol that begins with
    /// another one comes before it.
    pub open spec fn order() -> Seq<Symbol> {
        seq![
            Symbol::Colon,
            Symbol::Dot,
            Symbol::Comma,
            Symbol::Semicolon,
            Symbol::GreaterEqual,
            Symbol::Greater,
            Symbol::LessEqual,
            Symbol::Less,
            Symbol::NotEqual,
            Symbol::Equal,
            Symbol::Assign,
            Symbol::Mul,
            Symbol::Rem,
            Symbol::Div,
            Symbol::Add,
            Symbol::Sub,
            Symbol::BracketOpen,
            Symbol::BracketClose,
            Symbol::ParenOpen,
            Symbol::ParenClose,
            Symbol::BraceOpen,
            Symbol::BraceClose,
        ]
    }

    /// The first `n` symbols of the order do not stand at the cursor.
    pub open spec fn none_of(parser: &StringParser, n: int) -> bool {
        forall|k: int| 0 <= k < n ==> !parser.looking_at(#[trigger] Symbol::order()[k].spelling())
    }

    /// The symbol at place `k` of the order, and how it is written.
    fn nth(k: usize) -> (r: (Symbol, &'static str))
        requires
            k < Symbol::order().len(),
        ensures
            r.0 == Symbol::order()[k as int],
            r.1@ == r.0.spelling(),
            r.1@.len() >= 1,
    {
        proof {
            reveal_strlit(":");
            reveal_strlit(".");
            reveal_strlit(",");
            reveal_strlit(";");
            reveal_strlit(">=");
            reveal_strlit(">");
            reveal_strlit("<=");
            reveal_strlit("<");
            reveal_strlit("!=");
            reveal_strlit("==");
            reveal_strlit("=");
            reveal_strlit("*");
            reveal_strlit("%");
            reveal_strlit("/");
            reveal_strlit("+");
            reveal_strlit("-");
            reveal_strlit("[");
            reveal_strlit("]");
            reveal_strlit("(");
            reveal_strlit(")");
            reveal_strlit("{");
            reveal_strlit("}");
        }
        match k {
            0 => (Symbol::Colon, ":"),
            1 => (Symbol::Dot, "."),
            2 => (Symbol::Comma, ","),
            3 => (Symbol::Semicolon, ";"),
            4 => (Symbol::GreaterEqual, ">="),
            5 => (Symbol::Greater, ">"),
            6 => (Symbol::LessEqual, "<="),
            7 => (Symbol::Less, "<"),
            8 => (Symbol::NotEqual, "!="),
            9 => (Symbol::Equal, "=="),
            10 => (Symbol::Assign, "="),
            11 => (Symbol::Mul, "*"),
            12 => (Symbol::Rem, "%"),
            13 => (Symbol::Div, "/"),
            14 => (Symbol::Add, "+"),
            15 => (Symbol::Sub, "-"),
            16 => (Symbol::BracketOpen, "["),
            17 => (Symbol::BracketClose, "]"),
            18 => (Symbol::ParenOpen, "("),
            19 => (Symbol::ParenClose, ")"),
            20 => (Symbol::BraceOpen, "{"),
            _ => (Symbol::BraceClose, "}"),
        }
    }

    /// Consumes the symbol at the cursor, if one stands there: the first
    /// in the order whose spelling the text at the cursor begins with.
    pub fn from(parser: &mut StringParser) -> (r: Option<(StringSlice, Self)>)
        ensures
            final(parser).source() == old(parser).source(),
            final(parser).marks() == old(parser).marks(),
            old(parser).wf() ==> final(parser).wf(),
            match r {
                Some((slice, symbol)) => exists|k: int|
                    {
                        &&& 0 <= k < Symbol::order().len()
                        &&& #[trigger] Symbol::order()[k] == symbol
                        &&& Symbol::none_of(old(parser), k)
                        &&& old(parser).looking_at(symbol.spelling())
                        &&& final(parser).pos() == old(parser).pos() + symbol.spelling().len()
                        &&& symbol.spelling().len() >= 1
                        &&& slice == final(parser).span_from(old(parser).pos())
                    },
                None => Symbol::none_of(old(parser), Symbol::order().len() as int)
                    && final(parser).pos() == old(parser).pos(),
            },
    {
        let mut k: usize = 0;
        while k < 22
            invariant
                k <= 22,
                Symbol::order().len() == 22,
                parser.source() == old(parser).source(),
                parser.marks() == old(parser).marks(),
                parser.pos() == old(parser).pos(),
                old(parser).wf() ==> parser.wf(),
                Symbol::none_of(old(parser), k as int),
            decreases 22 - k,
        {
            let (symbol, text) = Symbol::nth(k);
            let ghost before = *parser;
            proof {
                assert(before.looking_at(text@) == old(parser).looking_at(text@));
            }
            if let Some(slice) = parser.try_consume_str(text) {
                return Some((slice, symbol));
            }
            k = k + 1;
        }
        None
    }
}

} // verus!
