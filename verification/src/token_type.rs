//! The token data model: token kinds, literal payloads, the token record,
//! and the keyword table.

use vstd::prelude::*;
use vstd::string::StringExecFns;

verus! {

/// The closed set of lexeme categories: single-character punctuation,
/// one/two-character operators, literal classes, the sixteen keywords,
/// and end-of-input.
#[allow(non_camel_case_types)]
#[derive(Clone, Copy, Debug, PartialEq, Eq, Structural)]
pub enum TokenType {
    // Single-character tokens.
    LEFT_PAREN,
    RIGHT_PAREN,
    LEFT_BRACE,
    RIGHT_BRACE,
    COMMA,
    DOT,
    MINUS,
    PLUS,
    SEMICOLON,
    SLASH,
    STAR,
    // One or two character tokens.
    BANG,
    BANG_EQUAL,
    EQUAL,
    EQUAL_EQUAL,
    GREATER,
    GREATER_EQUAL,
    LESS,
    LESS_EQUAL,
    // Literals.
    IDENTIFIER,
    STRING,
    NUMBER,
    // Keywords.
    AND,
    CLASS,
    ELSE,
    FALSE,
    FUN,
    FOR,
    IF,
    NIL,
    OR,
    PRINT,
    RETURN,
    SUPER,
    THIS,
    TRUE,
    VAR,
    WHILE,
    // End of input.
    EOF,
}

/// The keyword table: maps exactly the sixteen keyword strings to their
/// kinds; any other text is not a keyword and the caller falls back to
/// `IDENTIFIER`.
pub open spec fn spec_keyword(text: Seq<char>) -> Option<TokenType> {
    if text == "and"@ {
        Some(TokenType::AND)
    } else if text == "class"@ {
        Some(TokenType::CLASS)
    } else if text == "else"@ {
        Some(TokenType::ELSE)
    } else if text == "false"@ {
        Some(TokenType::FALSE)
    } else if text == "for"@ {
        Some(TokenType::FOR)
    } else if text == "fun"@ {
        Some(TokenType::FUN)
    } else if text == "if"@ {
        Some(TokenType::IF)
    } else if text == "nil"@ {
        Some(TokenType::NIL)
    } else if text == "or"@ {
        Some(TokenType::OR)
    } else if text == "print"@ {
        Some(TokenType::PRINT)
    } else if text == "return"@ {
        Some(TokenType::RETURN)
    } else if text == "super"@ {
        Some(TokenType::SUPER)
    } else if text == "this"@ {
        Some(TokenType::THIS)
    } else if text == "true"@ {
        Some(TokenType::TRUE)
    } else if text == "var"@ {
        Some(TokenType::VAR)
    } else if text == "while"@ {
        Some(TokenType::WHILE)
    } else {
        None
    }
}

/// Law: the keyword table is collision-free.  Two distinct strings that
/// are both keywords are never mapped to the same token kind.
pub proof fn lemma_keywords_distinct(a: Seq<char>, b: Seq<char>)
    requires
        a != b,
        spec_keyword(a) is Some,
        spec_keyword(b) is Some,
    ensures
        spec_keyword(a) != spec_keyword(b),
{
}

/// Equality of two string slices, stated over their views.
pub fn str_eq(a: &str, b: &str) -> (r: bool)
    ensures
        r == (a@ == b@),
{
    let a_owned = String::from_str(a);
    let b_owned = String::from_str(b);
    a_owned == b_owned
}

impl TokenType {
    /// Exact-match lookup in the keyword table; `None` for any text that
    /// is not one of the sixteen keywords.
    pub fn keyword(text: &str) -> (r: Option<TokenType>)
        ensures
            r == spec_keyword(text@),
    {
        if str_eq(text, "and") {
            Some(TokenType::AND)
        } else if str_eq(text, "class") {
            Some(TokenType::CLASS)
        } else if str_eq(text, "else") {
            Some(TokenType::ELSE)
        } else if str_eq(text, "false") {
            Some(TokenType::FALSE)
        } else if str_eq(text, "for") {
            Some(TokenType::FOR)
        } else if str_eq(text, "fun") {
            Some(TokenType::FUN)
        } else if str_eq(text, "if") {
            Some(TokenType::IF)
        } else if str_eq(text, "nil") {
            Some(TokenType::NIL)
        } else if str_eq(text, "or") {
            Some(TokenType::OR)
        } else if str_eq(text, "print") {
            Some(TokenType::PRINT)
        } else if str_eq(text, "return") {
            Some(TokenType::RETURN)
        } else if str_eq(text, "super") {
            Some(TokenType::SUPER)
        } else if str_eq(text, "this") {
            Some(TokenType::THIS)
        } else if str_eq(text, "true") {
            Some(TokenType::TRUE)
        } else if str_eq(text, "var") {
            Some(TokenType::VAR)
        } else if str_eq(text, "while") {
            Some(TokenType::WHILE)
        } else {
            None
        }
    }

    /// The four kinds that may combine with a following `=` into a
    /// two-character operator.
    pub open spec fn spec_combinable_with_eq(self) -> bool {
        self == TokenType::BANG || self == TokenType::EQUAL || self == TokenType::LESS
            || self == TokenType::GREATER
    }

    /// The combined kind reached when a `=` follows one of the four
    /// combinable kinds; any other kind is left as it stands.
    pub open spec fn spec_match_with_eq(self) -> TokenType {
        match self {
            TokenType::BANG => TokenType::BANG_EQUAL,
            TokenType::EQUAL => TokenType::EQUAL_EQUAL,
            TokenType::LESS => TokenType::LESS_EQUAL,
            TokenType::GREATER => TokenType::GREATER_EQUAL,
            _ => self,
        }
    }

    /// Combine a one-character operator kind with a following `=`.
    pub fn match_with_eq(&self) -> (r: TokenType)
        requires
            self.spec_combinable_with_eq(),
        ensures
            r == self.spec_match_with_eq(),
    {
        match self {
            TokenType::BANG => TokenType::BANG_EQUAL,
            TokenType::EQUAL => TokenType::EQUAL_EQUAL,
            TokenType::LESS => TokenType::LESS_EQUAL,
            _ => TokenType::GREATER_EQUAL,
        }
    }

    /// Whether this kind begins a line comment when followed by `/`.
    pub fn is_combinable_with_div(&self) -> (r: bool)
        ensures
            r == (*self == TokenType::SLASH),
    {
        matches!(self, TokenType::SLASH)
    }

    /// Whether this kind may combine with a following `=`.
    pub fn is_combinable_with_eq(&self) -> (r: bool)
        ensures
            r == self.spec_combinable_with_eq(),
    {
        matches!(
            self,
            TokenType::BANG | TokenType::EQUAL | TokenType::LESS | TokenType::GREATER
        )
    }
}

/// The literal payload carried by `STRING` and `NUMBER` tokens.  A string
/// literal carries the text strictly between its quotes, verbatim; a
/// number literal carries its exact source text (the host turns it into a
/// 64-bit float when it needs the numeric value).
#[derive(Debug, Clone)]
pub enum Literal {
    Str(String),
    Num(String),
}

/// The mathematical value of a literal payload: the payload text.
pub enum SpecLiteral {
    Str(Seq<char>),
    Num(Seq<char>),
}

impl View for Literal {
    type V = SpecLiteral;

    open spec fn view(&self) -> SpecLiteral {
        match self {
            Literal::Str(s) => SpecLiteral::Str(s@),
            Literal::Num(s) => SpecLiteral::Num(s@),
        }
    }
}

impl DeepView for Literal {
    type V = SpecLiteral;

    open spec fn deep_view(&self) -> SpecLiteral {
        self.view()
    }
}

impl Literal {
    /// The payload text itself.
    pub open spec fn spec_inner(self) -> Seq<char> {
        match self@ {
            SpecLiteral::Str(s) => s,
            SpecLiteral::Num(s) => s,
        }
    }

    /// Return the payload text of either literal class.
    pub fn inner(&self) -> (r: String)
        ensures
            r@ == self.spec_inner(),
    {
        match self {
            Literal::Str(s) => s.clone(),
            Literal::Num(s) => s.clone(),
        }
    }
}

/// The mathematical value of a token: its kind, the exact source slice it
/// was read from, its optional literal payload, and its 1-based line.
pub struct SpecToken {
    pub kind: TokenType,
    pub lexeme: Seq<char>,
    pub literal: Option<SpecLiteral>,
    pub line: int,
}

/// One unit of lexical output.  `lexeme` is exactly the source substring
/// the token was recognized from (empty only for the terminal `EOF`
/// token); `line` is the 1-based source line the token was emitted on.
#[derive(Debug, Clone)]
pub struct Token {
    pub _type: TokenType,
    pub lexeme: String,
    pub literal: Option<Literal>,
    pub line: usize,
}

impl View for Token {
    type V = SpecToken;

    open spec fn view(&self) -> SpecToken {
        SpecToken {
            kind: self._type,
            lexeme: self.lexeme@,
            literal: self.literal.deep_view(),
            line: self.line as int,
        }
    }
}

impl DeepView for Token {
    type V = SpecToken;

    open spec fn deep_view(&self) -> SpecToken {
        self.view()
    }
}

impl Token {
    /// Build a token from its parts.
    pub fn new(_type: TokenType, lexeme: &str, literal: Option<Literal>, line: usize) -> (t: Token)
        ensures
            t@ == (SpecToken {
                kind: _type,
                lexeme: lexeme@,
                literal: literal.deep_view(),
                line: line as int,
            }),
    {
        Token { _type, lexeme: String::from_str(lexeme), literal, line }
    }
}

} // verus!
