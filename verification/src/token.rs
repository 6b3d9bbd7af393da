//! The token model: lexical categories, literal values, and the immutable
//! token record carrying its lexeme and 1-based source line.
//!
//! A number literal is recorded as its exact numeric text (digits with an
//! optional fraction); consumers that need a machine float parse that text
//! themselves, outside this library.

use vstd::prelude::*;
use vstd::string::StringExecFns;

use crate::text::{dec_str, decimal_string, str_equal};

verus! {

/// The closed set of lexical categories.
#[derive(Clone, Copy, Debug, PartialEq, Eq, Structural)]
pub enum TokenType {
    // Single-character tokens.
    LeftParen,
    RightParen,
    LeftBrace,
    RightBrace,
    Comma,
    Dot,
    Minus,
    Plus,
    Semicolon,
    Slash,
    Star,
    // One or two character tokens.
    Bang,
    BangEqual,
    Equal,
    EqualEqual,
    Greater,
    GreaterEqual,
    Less,
    LessEqual,
    // Literals.
    Identifier,
    String,
    Number,
    // Keywords.
    And,
    Class,
    Else,
    False,
    Fun,
    For,
    If,
    Nil,
    Or,
    Print,
    Return,
    Super,
    This,
    True,
    Var,
    While,
    Eof,
}

/// The keyword table as a mathematical function of the identifier text.
pub open spec fn spec_keyword(text: Seq<char>) -> Option<TokenType> {
    if text == "and"@ {
        Some(TokenType::And)
    } else if text == "class"@ {
        Some(TokenType::Class)
    } else if text == "else"@ {
        Some(TokenType::Else)
    } else if text == "false"@ {
        Some(TokenType::False)
    } else if text == "for"@ {
        Some(TokenType::For)
    } else if text == "fun"@ {
        Some(TokenType::Fun)
    } else if text == "if"@ {
        Some(TokenType::If)
    } else if text == "nil"@ {
        Some(TokenType::Nil)
    } else if text == "or"@ {
        Some(TokenType::Or)
    } else if text == "print"@ {
        Some(TokenType::Print)
    } else if text == "return"@ {
        Some(TokenType::Return)
    } else if text == "super"@ {
        Some(TokenType::Super)
    } else if text == "this"@ {
        Some(TokenType::This)
    } else if text == "true"@ {
        Some(TokenType::True)
    } else if text == "var"@ {
        Some(TokenType::Var)
    } else if text == "while"@ {
        Some(TokenType::While)
    } else {
        None
    }
}

impl TokenType {
    /// Looks the exact identifier text up in the fixed keyword table.
    pub fn keyword(text: &str) -> (r: Option<TokenType>)
        ensures
            r == spec_keyword(text@),
    {
        if str_equal(text, "and") {
            Some(TokenType::And)
        } else if str_equal(text, "class") {
            Some(TokenType::Class)
        } else if str_equal(text, "else") {
            Some(TokenType::Else)
        } else if str_equal(text, "false") {
            Some(TokenType::False)
        } else if str_equal(text, "for") {
            Some(TokenType::For)
        } else if str_equal(text, "fun") {
            Some(TokenType::Fun)
        } else if str_equal(text, "if") {
            Some(TokenType::If)
        } else if str_equal(text, "nil") {
            Some(TokenType::Nil)
        } else if str_equal(text, "or") {
            Some(TokenType::Or)
        } else if str_equal(text, "print") {
            Some(TokenType::Print)
        } else if str_equal(text, "return") {
            Some(TokenType::Return)
        } else if str_equal(text, "super") {
            Some(TokenType::Super)
        } else if str_equal(text, "this") {
            Some(TokenType::This)
        } else if str_equal(text, "true") {
            Some(TokenType::True)
        } else if str_equal(text, "var") {
            Some(TokenType::Var)
        } else if str_equal(text, "while") {
            Some(TokenType::While)
        } else {
            None
        }
    }

    /// The upper-case display name of the category, used by the debug
    /// rendering of a token.
    pub fn name(self) -> (r: &'static str)
        ensures
            r@ == spec_kind_name(self),
    {
        match self {
            TokenType::LeftParen => "LEFT_PAREN",
            TokenType::RightParen => "RIGHT_PAREN",
            TokenType::LeftBrace => "LEFT_BRACE",
            TokenType::RightBrace => "RIGHT_BRACE",
            TokenType::Comma => "COMMA",
            TokenType::Dot => "DOT",
            TokenType::Minus => "MINUS",
            TokenType::Plus => "PLUS",
            TokenType::Semicolon => "SEMICOLON",
            TokenType::Slash => "SLASH",
            TokenType::Star => "STAR",
            TokenType::Bang => "BANG",
            TokenType::BangEqual => "BANG_EQUAL",
            TokenType::Equal => "EQUAL",
            TokenType::EqualEqual => "EQUAL_EQUAL",
            TokenType::Greater => "GREATER",
            TokenType::GreaterEqual => "GREATER_EQUAL",
            TokenType::Less => "LESS",
            TokenType::LessEqual => "LESS_EQUAL",
            TokenType::Identifier => "IDENTIFIER",
            TokenType::String => "STRING",
            TokenType::Number => "NUMBER",
            TokenType::And => "AND",
            TokenType::Class => "CLASS",
            TokenType::Else => "ELSE",
            TokenType::False => "FALSE",
            TokenType::Fun => "FUN",
            TokenType::For => "FOR",
            TokenType::If => "IF",
            TokenType::Nil => "NIL",
            TokenType::Or => "OR",
            TokenType::Print => "PRINT",
            TokenType::Return => "RETURN",
            TokenType::Super => "SUPER",
            TokenType::This => "THIS",
            TokenType::True => "TRUE",
            TokenType::Var => "VAR",
            TokenType::While => "WHILE",
            TokenType::Eof => "EOF",
        }
    }
}

/// The display name of a lexical category.
pub open spec fn spec_kind_name(k: TokenType) -> Seq<char> {
    match k {
        TokenType::LeftParen => "LEFT_PAREN"@,
        TokenType::RightParen => "RIGHT_PAREN"@,
        TokenType::LeftBrace => "LEFT_BRACE"@,
        TokenType::RightBrace => "RIGHT_BRACE"@,
        TokenType::Comma => "COMMA"@,
        TokenType::Dot => "DOT"@,
        TokenType::Minus => "MINUS"@,
        TokenType::Plus => "PLUS"@,
        TokenType::Semicolon => "SEMICOLON"@,
        TokenType::Slash => "SLASH"@,
        TokenType::Star => "STAR"@,
        TokenType::Bang => "BANG"@,
        TokenType::BangEqual => "BANG_EQUAL"@,
        TokenType::Equal => "EQUAL"@,
        TokenType::EqualEqual => "EQUAL_EQUAL"@,
        TokenType::Greater => "GREATER"@,
        TokenType::GreaterEqual => "GREATER_EQUAL"@,
        TokenType::Less => "LESS"@,
        TokenType::LessEqual => "LESS_EQUAL"@,
        TokenType::Identifier => "IDENTIFIER"@,
        TokenType::String => "STRING"@,
        TokenType::Number => "NUMBER"@,
        TokenType::And => "AND"@,
        TokenType::Class => "CLASS"@,
        TokenType::Else => "ELSE"@,
        TokenType::False => "FALSE"@,
        TokenType::Fun => "FUN"@,
        TokenType::For => "FOR"@,
        TokenType::If => "IF"@,
        TokenType::Nil => "NIL"@,
        TokenType::Or => "OR"@,
        TokenType::Print => "PRINT"@,
        TokenType::Return => "RETURN"@,
        TokenType::Super => "SUPER"@,
        TokenType::This => "THIS"@,
        TokenType::True => "TRUE"@,
        TokenType::Var => "VAR"@,
        TokenType::While => "WHILE"@,
        TokenType::Eof => "EOF"@,
    }
}

/// A literal value carried by a token or an expression leaf. `String` keeps
/// the text between the quotes; `Number` keeps the exact numeric text.
/// `True`, `False` and `Nil` arise only in expression leaves, never on a
/// token.
#[derive(Debug)]
pub enum TokenLiteral {
    String(String),
    Number(String),
    True,
    False,
    Nil,
}

/// The mathematical value of a literal.
pub enum SpecLit {
    Str(Seq<char>),
    Num(Seq<char>),
    True,
    False,
    Nil,
}

impl View for TokenLiteral {
    type V = SpecLit;

    open spec fn view(&self) -> SpecLit {
        match self {
            TokenLiteral::String(s) => SpecLit::Str(s@),
            TokenLiteral::Number(s) => SpecLit::Num(s@),
            TokenLiteral::True => SpecLit::True,
            TokenLiteral::False => SpecLit::False,
            TokenLiteral::Nil => SpecLit::Nil,
        }
    }
}

impl TokenLiteral {
    /// An owned copy with the same value.
    pub fn clone(&self) -> (r: TokenLiteral)
        ensures
            r@ == self@,
    {
        match self {
            TokenLiteral::String(s) => TokenLiteral::String(String::from_str(s.as_str())),
            TokenLiteral::Number(s) => TokenLiteral::Number(String::from_str(s.as_str())),
            TokenLiteral::True => TokenLiteral::True,
            TokenLiteral::False => TokenLiteral::False,
            TokenLiteral::Nil => TokenLiteral::Nil,
        }
    }
}

impl PartialEq for TokenLiteral {
    fn eq(&self, other: &TokenLiteral) -> (r: bool) {
        match (self, other) {
            (TokenLiteral::String(a), TokenLiteral::String(b)) => *a == *b,
            (TokenLiteral::Number(a), TokenLiteral::Number(b)) => *a == *b,
            (TokenLiteral::True, TokenLiteral::True) => true,
            (TokenLiteral::False, TokenLiteral::False) => true,
            (TokenLiteral::Nil, TokenLiteral::Nil) => true,
            _ => false,
        }
    }
}

impl vstd::std_specs::cmp::PartialEqSpecImpl for TokenLiteral {
    open spec fn obeys_eq_spec() -> bool {
        true
    }

    open spec fn eq_spec(&self, other: &TokenLiteral) -> bool {
        self@ == other@
    }
}

/// A mathematical token: category, lexeme characters, literal value and
/// 1-based source line.
#[verifier::ext_equal]
pub struct SpecToken {
    pub kind: TokenType,
    pub lexeme: Seq<char>,
    pub lit: Option<SpecLit>,
    pub line: nat,
}

/// What a token sequence must look like before parsing: non-empty, closed by
/// the end-of-input marker, every literal matching its token's category.
pub open spec fn wf_tokens(ts: Seq<SpecToken>) -> bool {
    &&& ts.len() >= 1
    &&& ts[ts.len() - 1].kind == TokenType::Eof
    &&& forall|j: int| 0 <= j < ts.len() ==> lit_ok(#[trigger] ts[j])
}

/// The literal is present if and only if the category calls for one, and is
/// of the matching variant.
pub open spec fn lit_ok(t: SpecToken) -> bool {
    match t.kind {
        TokenType::String => t.lit matches Some(SpecLit::Str(_)),
        TokenType::Number => t.lit matches Some(SpecLit::Num(_)),
        _ => t.lit is None,
    }
}

/// A classified lexical unit.
#[derive(Debug)]
pub struct Token {
    pub token_type: TokenType,
    pub lexeme: String,
    pub literal: Option<TokenLiteral>,
    pub line: usize,
}

impl View for Token {
    type V = SpecToken;

    open spec fn view(&self) -> SpecToken {
        SpecToken {
            kind: self.token_type,
            lexeme: self.lexeme@,
            lit: match self.literal {
                Some(l) => Some(l@),
                None => None,
            },
            line: self.line as nat,
        }
    }
}

impl PartialEq for Token {
    fn eq(&self, other: &Token) -> (r: bool) {
        let lits_equal = match (&self.literal, &other.literal) {
            (Some(a), Some(b)) => a == b,
            (None, None) => true,
            _ => false,
        };
        self.token_type == other.token_type && self.lexeme == other.lexeme && lits_equal
            && self.line == other.line
    }
}

impl vstd::std_specs::cmp::PartialEqSpecImpl for Token {
    open spec fn obeys_eq_spec() -> bool {
        true
    }

    open spec fn eq_spec(&self, other: &Token) -> bool {
        self@ == other@
    }
}

/// The textual form of a literal value: the string's text, the number's
/// numeric text, or the fixed words `true`, `false`, `nil`.
pub open spec fn lit_text(l: SpecLit) -> Seq<char> {
    match l {
        SpecLit::Str(s) => s,
        SpecLit::Num(n) => n,
        SpecLit::True => "true"@,
        SpecLit::False => "false"@,
        SpecLit::Nil => "nil"@,
    }
}

/// Renders a literal value as text.
pub fn literal_text(l: &TokenLiteral) -> (r: String)
    ensures
        r@ == lit_text(l@),
{
    match l {
        TokenLiteral::String(s) => String::from_str(s.as_str()),
        TokenLiteral::Number(s) => String::from_str(s.as_str()),
        TokenLiteral::True => String::from_str("true"),
        TokenLiteral::False => String::from_str("false"),
        TokenLiteral::Nil => String::from_str("nil"),
    }
}

/// The end-of-input marker at the given line.
pub open spec fn spec_eof(line: nat) -> SpecToken {
    SpecToken { kind: TokenType::Eof, lexeme: Seq::<char>::empty(), lit: None, line }
}

/// The debug rendering of a token: `<KIND> <lexeme> <line>`.
pub open spec fn spec_display(t: SpecToken) -> Seq<char> {
    spec_kind_name(t.kind) + " "@ + t.lexeme + " "@ + dec_str(t.line)
}

impl Token {
    pub fn new(
        token_type: TokenType,
        lexeme: String,
        literal: Option<TokenLiteral>,
        line: usize,
    ) -> (r: Token)
        ensures
            r.token_type == token_type,
            r.lexeme == lexeme,
            r.literal == literal,
            r.line == line,
    {
        Token { token_type, lexeme, literal, line }
    }

    /// The end-of-input marker: empty lexeme, no literal.
    pub fn eof(line: usize) -> (r: Token)
        ensures
            r@ == spec_eof(line as nat),
    {
        let r = Token {
            token_type: TokenType::Eof,
            lexeme: String::new(),
            literal: None,
            line,
        };
        proof {
            assert(r@ =~= spec_eof(line as nat));
        }
        r
    }

    /// A minus operator token at the given line.
    pub fn minus(line: usize) -> (r: Token)
        ensures
            r@ =~= (SpecToken {
                kind: TokenType::Minus,
                lexeme: "-"@,
                lit: None,
                line: line as nat,
            }),
    {
        Token {
            token_type: TokenType::Minus,
            lexeme: String::from_str("-"),
            literal: None,
            line,
        }
    }

    /// A star operator token at the given line.
    pub fn star(line: usize) -> (r: Token)
        ensures
            r@ =~= (SpecToken {
                kind: TokenType::Star,
                lexeme: "*"@,
                lit: None,
                line: line as nat,
            }),
    {
        Token {
            token_type: TokenType::Star,
            lexeme: String::from_str("*"),
            literal: None,
            line,
        }
    }

    /// An owned copy of the token; its view (category, lexeme characters,
    /// literal value, line) is unchanged.
    pub fn clone(&self) -> (r: Token)
        ensures
            r@ == self@,
            r.token_type == self.token_type,
            r.line == self.line,
    {
        let literal = match &self.literal {
            Some(l) => Some(l.clone()),
            None => None,
        };
        let r = Token {
            token_type: self.token_type,
            lexeme: String::from_str(self.lexeme.as_str()),
            literal,
            line: self.line,
        };
        proof {
            assert(r@ =~= self@);
        }
        r
    }

    /// Renders the token as `<KIND> <lexeme> <line>`, the one-line debug
    /// form (literal payloads are omitted).
    pub fn to_string(&self) -> (r: String)
        ensures
            r@ == spec_display(self@),
    {
        let mut s = String::from_str(self.token_type.name());
        s.append(" ");
        s.append(self.lexeme.as_str());
        s.append(" ");
        s.append(decimal_string(self.line).as_str());
        proof {
            assert(s@ =~= spec_display(self@));
        }
        s
    }
}

} // verus!
