//! The executable scanner: a stateful cursor over one source buffer,
//! proved to produce exactly the token and diagnostic sequences of the
//! mathematical model in the `model` module.

use vstd::prelude::*;
use vstd::string::{StrSliceExecFns, StringExecFns};
use crate::diagnostic::{Diagnostic, LexErrorKind, SpecDiagnostic};
use crate::model::{
    comment_end, digit_run_end, eq_candidate_kind, ident_run_end, is_alnum_char, is_alpha_char,
    is_digit_char, is_eq_candidate, is_single_punct, lemma_comment_end, lemma_nl_count_le,
    lemma_step_advances, lemma_string_end, line_at, nl_count, number_end, opt_seq, punct_kind,
    scan_spec, step, string_end, eof_token, scan_from,
};
use crate::token_type::{Literal, SpecLiteral, SpecToken, Token, TokenType};

verus! {

// ---------------------------------------------------------------------------
// Character classification, testable on its own
// ---------------------------------------------------------------------------

/// Whether `c` is an ASCII decimal digit.
pub fn is_digit(c: char) -> (r: bool)
    ensures
        r == is_digit_char(c),
{
    let u = c as u32;
    ('0' as u32) <= u && u <= ('9' as u32)
}

/// Whether `c` starts an identifier: an ASCII letter or underscore.
pub fn is_alpha(c: char) -> (r: bool)
    ensures
        r == is_alpha_char(c),
{
    let u = c as u32;
    (('a' as u32) <= u && u <= ('z' as u32)) || (('A' as u32) <= u && u <= ('Z' as u32)) || c
        == '_'
}

/// Whether `c` continues an identifier: letter, digit or underscore.
pub fn is_alphanumeric(c: char) -> (r: bool)
    ensures
        r == is_alnum_char(c),
{
    is_alpha(c) || is_digit(c)
}

/// The kind of a one-character punctuation token, or `None` when `c` is
/// no such character.
pub fn single_punct_kind(c: char) -> (r: Option<TokenType>)
    ensures
        r is Some <==> is_single_punct(c),
        r matches Some(k) ==> k == punct_kind(c),
{
    match c {
        '(' => Some(TokenType::LEFT_PAREN),
        ')' => Some(TokenType::RIGHT_PAREN),
        '{' => Some(TokenType::LEFT_BRACE),
        '}' => Some(TokenType::RIGHT_BRACE),
        ',' => Some(TokenType::COMMA),
        '.' => Some(TokenType::DOT),
        '-' => Some(TokenType::MINUS),
        '+' => Some(TokenType::PLUS),
        ';' => Some(TokenType::SEMICOLON),
        '*' => Some(TokenType::STAR),
        _ => None,
    }
}

/// The bare kind of a character that may combine with a following `=`,
/// or `None` when `c` is no such character.
pub fn eq_candidate_base(c: char) -> (r: Option<TokenType>)
    ensures
        r is Some <==> is_eq_candidate(c),
        r matches Some(k) ==> k == eq_candidate_kind(c),
{
    match c {
        '!' => Some(TokenType::BANG),
        '=' => Some(TokenType::EQUAL),
        '<' => Some(TokenType::LESS),
        '>' => Some(TokenType::GREATER),
        _ => None,
    }
}

// ---------------------------------------------------------------------------
// The scanner
// ---------------------------------------------------------------------------

/// A stateful cursor over one source buffer.  `start` marks the beginning
/// of the lexeme being recognized, `current` the next unread character,
/// `line` the 1-based line the cursor stands on.  One instance serves one
/// scan and is then discarded.
pub struct Scanner {
    source: String,
    tokens: Vec<Token>,
    diagnostics: Vec<Diagnostic>,
    start: usize,
    current: usize,
    line: usize,
    length: usize,
}

impl Scanner {
    /// The source text under scan.
    pub closed spec fn src(self) -> Seq<char> {
        self.source@
    }

    /// The tokens emitted so far.
    pub closed spec fn spec_tokens(self) -> Seq<SpecToken> {
        self.tokens.deep_view()
    }

    /// The diagnostics reported so far.
    pub closed spec fn spec_diagnostics(self) -> Seq<SpecDiagnostic> {
        self.diagnostics.deep_view()
    }

    /// The cursor invariant: offsets stay within the source, and the line
    /// counter always equals one plus the newlines already consumed.
    pub closed spec fn wf(self) -> bool {
        &&& self.length == self.src().len()
        &&& self.src().len() < usize::MAX
        &&& self.start <= self.current <= self.length
        &&& self.line == line_at(self.src(), self.current as int)
    }

    /// A scanner that has not consumed anything yet.
    pub closed spec fn fresh(self) -> bool {
        &&& self.wf()
        &&& self.current == 0
        &&& self.start == 0
        &&& self.spec_tokens().len() == 0
        &&& self.spec_diagnostics().len() == 0
    }

    /// Make a scanner over one source buffer.  The bound on the length is
    /// a machine limit: a buffer of `usize::MAX` characters cannot exist.
    pub fn new(source: &str) -> (sc: Scanner)
        requires
            source@.len() < usize::MAX,
        ensures
            sc.fresh(),
            sc.src() == source@,
    {
        let length = source.unicode_len();
        let sc = Scanner {
            source: String::from_str(source),
            tokens: Vec::new(),
            diagnostics: Vec::new(),
            start: 0,
            current: 0,
            line: 1,
            length,
        };
        proof {
            assert(sc.spec_tokens() =~= Seq::<SpecToken>::empty());
            assert(sc.spec_diagnostics() =~= Seq::<SpecDiagnostic>::empty());
        }
        sc
    }

    /// Whether the cursor has reached the end of the input.
    fn is_at_end(&self) -> (r: bool)
        ensures
            r == (self.current >= self.length),
    {
        self.current >= self.length
    }

    /// Consume and return the next character.
    fn advance(&mut self) -> (c: char)
        requires
            old(self).current < old(self).length,
            old(self).length == old(self).source@.len(),
        ensures
            final(self).source == old(self).source,
            final(self).tokens == old(self).tokens,
            final(self).diagnostics == old(self).diagnostics,
            final(self).start == old(self).start,
            final(self).line == old(self).line,
            final(self).length == old(self).length,
            final(self).current == old(self).current + 1,
            c == old(self).source@[old(self).current as int],
    {
        let c = self.source.as_str().get_char(self.current);
        self.current = self.current + 1;
        c
    }

    /// The next unread character, if any, without consuming it.
    fn peek(&self) -> (r: Option<char>)
        requires
            self.length == self.source@.len(),
        ensures
            r == (if self.current < self.length {
                Some(self.source@[self.current as int])
            } else {
                None::<char>
            }),
    {
        if self.current < self.length {
            Some(self.source.as_str().get_char(self.current))
        } else {
            None
        }
    }

    /// The character one past the next unread one, if any.
    fn peek_next(&self) -> (r: Option<char>)
        requires
            self.length == self.source@.len(),
            self.current <= self.length,
            self.length < usize::MAX,
        ensures
            r == (if self.current + 1 < self.length {
                Some(self.source@[self.current as int + 1])
            } else {
                None::<char>
            }),
    {
        if self.current + 1 < self.length {
            Some(self.source.as_str().get_char(self.current + 1))
        } else {
            None
        }
    }

    /// Consume the next character exactly when it equals `expected`.
    fn can_match_with(&mut self, expected: char) -> (r: bool)
        requires
            old(self).length == old(self).source@.len(),
            old(self).current <= old(self).length,
        ensures
            final(self).source == old(self).source,
            final(self).tokens == old(self).tokens,
            final(self).diagnostics == old(self).diagnostics,
            final(self).start == old(self).start,
            final(self).line == old(self).line,
            final(self).length == old(self).length,
            r == (old(self).current < old(self).length && old(self).source@[old(
                self,
            ).current as int] == expected),
            final(self).current == (if r {
                old(self).current + 1
            } else {
                old(self).current as int
            }),
    {
        if self.current >= self.length {
            return false;
        }
        let ch = self.source.as_str().get_char(self.current);
        if ch == expected {
            self.current = self.current + 1;
            true
        } else {
            false
        }
    }

    /// Emit one token whose lexeme is the source slice between `start`
    /// and `current`, on the line the cursor stands on.
    fn add_token(&mut self, _type: TokenType, literal: Option<Literal>)
        requires
            old(self).start <= old(self).current <= old(self).length,
            old(self).length == old(self).source@.len(),
        ensures
            final(self).source == old(self).source,
            final(self).diagnostics == old(self).diagnostics,
            final(self).start == old(self).start,
            final(self).current == old(self).current,
            final(self).line == old(self).line,
            final(self).length == old(self).length,
            final(self).tokens.deep_view() == old(self).tokens.deep_view().push(
                (SpecToken {
                    kind: _type,
                    lexeme: old(self).source@.subrange(
                        old(self).start as int,
                        old(self).current as int,
                    ),
                    literal: literal.deep_view(),
                    line: old(self).line as int,
                }),
            ),
    {
        let text = self.source.as_str().substring_char(self.start, self.current);
        let tok = Token::new(_type, text, literal, self.line);
        self.tokens.push(tok);
        proof {
            assert(self.tokens.deep_view() =~= old(self).tokens.deep_view().push(tok@));
        }
    }

    /// Consume a string literal whose opening quote stands at `start`:
    /// run to the matching quote, counting embedded newlines, and emit a
    /// `STRING` token carrying the text strictly between the quotes; at
    /// end of input instead, report an unterminated string and emit
    /// nothing, so the rest of the scan goes on.
    fn string(&mut self)
        requires
            old(self).length == old(self).source@.len(),
            old(self).source@.len() < usize::MAX,
            old(self).start + 1 == old(self).current,
            old(self).current <= old(self).length,
            old(self).source@[old(self).start as int] == '"',
            old(self).line == line_at(old(self).source@, old(self).current as int),
        ensures
            final(self).source == old(self).source,
            final(self).length == old(self).length,
            final(self).start == old(self).start,
            ({
                let s = old(self).source@;
                let pos = old(self).start as int;
                let close = string_end(s, pos + 1);
                if close < s.len() {
                    &&& final(self).current == close + 1
                    &&& final(self).line == line_at(s, close + 1)
                    &&& final(self).diagnostics == old(self).diagnostics
                    &&& final(self).tokens.deep_view() == old(self).tokens.deep_view().push(
                        (SpecToken {
                            kind: TokenType::STRING,
                            lexeme: s.subrange(pos, close + 1),
                            literal: Some(SpecLiteral::Str(s.subrange(pos + 1, close))),
                            line: line_at(s, close + 1),
                        }),
                    )
                } else {
                    &&& final(self).current == old(self).length
                    &&& final(self).line == line_at(s, s.len() as int)
                    &&& final(self).tokens == old(self).tokens
                    &&& final(self).diagnostics.deep_view() == old(
                        self,
                    ).diagnostics.deep_view().push(
                        (SpecDiagnostic {
                            line: line_at(s, s.len() as int),
                            kind: LexErrorKind::UnterminatedString,
                        }),
                    )
                }
            }),
    {
        let ghost s = self.source@;
        let ghost cur0 = self.current as int;
        let ghost toks0 = self.tokens;
        let ghost diags0 = self.diagnostics;
        proof {
            lemma_string_end(s, cur0);
        }
        while !self.is_at_end() && self.source.as_str().get_char(self.current) != '"'
            invariant
                self.source == old(self).source,
                self.source@ == s,
                self.length == s.len(),
                s.len() < usize::MAX,
                self.start == old(self).start,
                self.tokens == toks0,
                self.diagnostics == diags0,
                cur0 <= self.current <= self.length,
                string_end(s, cur0) == string_end(s, self.current as int),
                self.line == line_at(s, self.current as int),
            decreases self.length - self.current,
        {
            let c = self.source.as_str().get_char(self.current);
            if c == '\n' {
                proof {
                    lemma_nl_count_le(s, self.current as int);
                }
                self.line = self.line + 1;
            }
            self.current = self.current + 1;
        }
        proof {
            assert(self.current as int == string_end(s, cur0));
        }
        if self.is_at_end() {
            let d = Diagnostic { line: self.line, kind: LexErrorKind::UnterminatedString };
            self.diagnostics.push(d);
            proof {
                assert(self.diagnostics.deep_view() =~= diags0.deep_view().push(d@));
            }
        } else {
            // The closing quote itself.
            self.current = self.current + 1;
            let ghost close = self.current as int - 1;
            let value = self.source.as_str().substring_char(self.start + 1, self.current - 1);
            let lit = Literal::Str(String::from_str(value));
            self.add_token(TokenType::STRING, Some(lit));
            proof {
                assert(lit.deep_view() == SpecLiteral::Str(s.subrange(cur0, close)));
            }
        }
    }

    /// Consume a number literal whose first digit stands at `start`: a
    /// maximal digit run, then a fractional part only when a `.` is
    /// directly followed by another digit, and emit a `NUMBER` token
    /// whose payload is the exact matched text.
    fn number(&mut self)
        requires
            old(self).length == old(self).source@.len(),
            old(self).source@.len() < usize::MAX,
            old(self).start + 1 == old(self).current,
            old(self).current <= old(self).length,
            is_digit_char(old(self).source@[old(self).start as int]),
            old(self).line == line_at(old(self).source@, old(self).current as int),
        ensures
            final(self).source == old(self).source,
            final(self).length == old(self).length,
            final(self).start == old(self).start,
            final(self).diagnostics == old(self).diagnostics,
            ({
                let s = old(self).source@;
                let pos = old(self).start as int;
                let end = number_end(s, pos);
                &&& final(self).current == end
                &&& final(self).line == line_at(s, end)
                &&& final(self).tokens.deep_view() == old(self).tokens.deep_view().push(
                    (SpecToken {
                        kind: TokenType::NUMBER,
                        lexeme: s.subrange(pos, end),
                        literal: Some(SpecLiteral::Num(s.subrange(pos, end))),
                        line: line_at(s, end),
                    }),
                )
            }),
    {
        let ghost s = self.source@;
        let ghost pos = self.start as int;
        let ghost cur0 = self.current as int;
        let ghost toks0 = self.tokens;
        let ghost diags0 = self.diagnostics;
        while !self.is_at_end() && is_digit(self.source.as_str().get_char(self.current))
            invariant
                self.source == old(self).source,
                self.source@ == s,
                self.length == s.len(),
                s.len() < usize::MAX,
                self.start == old(self).start,
                self.tokens == toks0,
                self.diagnostics == diags0,
                cur0 <= self.current <= self.length,
                digit_run_end(s, cur0) == digit_run_end(s, self.current as int),
                self.line == old(self).line,
                line_at(s, self.current as int) == line_at(s, cur0),
            decreases self.length - self.current,
        {
            self.current = self.current + 1;
        }
        proof {
            assert(self.current as int == digit_run_end(s, cur0));
            assert(digit_run_end(s, pos) == digit_run_end(s, cur0));
        }
        let ghost j = digit_run_end(s, pos);
        let next_is_dot = match self.peek() {
            Some(ch) => ch == '.',
            None => false,
        };
        let then_digit = match self.peek_next() {
            Some(ch) => is_digit(ch),
            None => false,
        };
        if next_is_dot && then_digit {
            // The dot of the fractional part.
            self.current = self.current + 1;
            while !self.is_at_end() && is_digit(self.source.as_str().get_char(self.current))
                invariant
                    self.source == old(self).source,
                    self.source@ == s,
                    self.length == s.len(),
                    s.len() < usize::MAX,
                    self.start == old(self).start,
                    self.tokens == toks0,
                    self.diagnostics == diags0,
                    j + 1 <= self.current <= self.length,
                    digit_run_end(s, j + 1) == digit_run_end(s, self.current as int),
                    self.line == old(self).line,
                    line_at(s, self.current as int) == line_at(s, j + 1),
                decreases self.length - self.current,
            {
                self.current = self.current + 1;
            }
            proof {
                assert(self.current as int == digit_run_end(s, j + 1));
                assert(line_at(s, j + 1) == line_at(s, j));
                assert(number_end(s, pos) == digit_run_end(s, j + 1));
            }
        } else {
            proof {
                assert(number_end(s, pos) == j);
            }
        }
        proof {
            assert(line_at(s, self.current as int) == line_at(s, cur0));
            assert(line_at(s, cur0) == line_at(s, pos));
        }
        let text = self.source.as_str().substring_char(self.start, self.current);
        let lit = Literal::Num(String::from_str(text));
        self.add_token(TokenType::NUMBER, Some(lit));
    }

    /// Consume an identifier or keyword whose first character stands at
    /// `start`: a maximal run of letters, digits and underscores, looked
    /// up in the keyword table, with `IDENTIFIER` as the fallback.
    fn identifier(&mut self)
        requires
            old(self).length == old(self).source@.len(),
            old(self).source@.len() < usize::MAX,
            old(self).start + 1 == old(self).current,
            old(self).current <= old(self).length,
            is_alpha_char(old(self).source@[old(self).start as int]),
            old(self).line == line_at(old(self).source@, old(self).current as int),
        ensures
            final(self).source == old(self).source,
            final(self).length == old(self).length,
            final(self).start == old(self).start,
            final(self).diagnostics == old(self).diagnostics,
            ({
                let s = old(self).source@;
                let pos = old(self).start as int;
                let end = ident_run_end(s, pos);
                let text = s.subrange(pos, end);
                let kind = match crate::token_type::spec_keyword(text) {
                    Some(k) => k,
                    None => TokenType::IDENTIFIER,
                };
                &&& final(self).current == end
                &&& final(self).line == line_at(s, end)
                &&& final(self).tokens.deep_view() == old(self).tokens.deep_view().push(
                    (SpecToken { kind, lexeme: text, literal: None, line: line_at(s, end) }),
                )
            }),
    {
        let ghost s = self.source@;
        let ghost pos = self.start as int;
        let ghost cur0 = self.current as int;
        let ghost toks0 = self.tokens;
        let ghost diags0 = self.diagnostics;
        while !self.is_at_end() && is_alphanumeric(self.source.as_str().get_char(self.current))
            invariant
                self.source == old(self).source,
                self.source@ == s,
                self.length == s.len(),
                s.len() < usize::MAX,
                self.start == old(self).start,
                self.tokens == toks0,
                self.diagnostics == diags0,
                cur0 <= self.current <= self.length,
                ident_run_end(s, cur0) == ident_run_end(s, self.current as int),
                self.line == old(self).line,
                line_at(s, self.current as int) == line_at(s, cur0),
            decreases self.length - self.current,
        {
            self.current = self.current + 1;
        }
        proof {
            assert(self.current as int == ident_run_end(s, cur0));
            assert(ident_run_end(s, pos) == ident_run_end(s, cur0));
            assert(line_at(s, cur0) == line_at(s, pos));
        }
        let kw = {
            let text = self.source.as_str().substring_char(self.start, self.current);
            TokenType::keyword(text)
        };
        match kw {
            Some(k) => self.add_token(k, None),
            None => self.add_token(TokenType::IDENTIFIER, None),
        }
    }

    /// Recognize exactly one lexeme, or one ignorable run of characters,
    /// and do to the cursor and the output exactly what the model's
    /// dispatch step says.
    fn scan_token(&mut self)
        requires
            old(self).wf(),
            old(self).current < old(self).length,
            old(self).start == old(self).current,
        ensures
            final(self).wf(),
            final(self).source == old(self).source,
            final(self).length == old(self).length,
            ({
                let st = step(old(self).source@, old(self).current as int);
                &&& final(self).current as int == st.next_pos
                &&& final(self).tokens.deep_view() == old(self).tokens.deep_view() + opt_seq(
                    st.token,
                )
                &&& final(self).diagnostics.deep_view() == old(self).diagnostics.deep_view()
                    + opt_seq(st.diag)
            }),
    {
        let ghost s = self.source@;
        let ghost pos = self.current as int;
        let ghost st = step(s, pos);
        proof {
            lemma_step_advances(s, pos);
        }
        let c = self.advance();
        if let Some(kind) = single_punct_kind(c) {
            self.add_token(kind, None);
            proof {
                assert(nl_count(s, pos + 1) == nl_count(s, pos));
                assert(self.tokens.deep_view() =~= old(self).tokens.deep_view() + opt_seq(
                    st.token,
                ));
                assert(self.diagnostics.deep_view() =~= old(self).diagnostics.deep_view()
                    + opt_seq(st.diag));
            }
        } else if let Some(base) = eq_candidate_base(c) {
            if self.can_match_with('=') {
                let k = base.match_with_eq();
                self.add_token(k, None);
                proof {
                    assert(nl_count(s, pos + 1) == nl_count(s, pos));
                    assert(nl_count(s, pos + 2) == nl_count(s, pos + 1));
                    assert(self.tokens.deep_view() =~= old(self).tokens.deep_view() + opt_seq(
                        st.token,
                    ));
                    assert(self.diagnostics.deep_view() =~= old(self).diagnostics.deep_view()
                        + opt_seq(st.diag));
                }
            } else {
                self.add_token(base, None);
                proof {
                    assert(nl_count(s, pos + 1) == nl_count(s, pos));
                    assert(self.tokens.deep_view() =~= old(self).tokens.deep_view() + opt_seq(
                        st.token,
                    ));
                    assert(self.diagnostics.deep_view() =~= old(self).diagnostics.deep_view()
                        + opt_seq(st.diag));
                }
            }
        } else if c == '/' {
            if self.can_match_with('/') {
                // A line comment: run to the newline without consuming it.
                proof {
                    lemma_comment_end(s, pos + 2);
                    assert(nl_count(s, pos + 1) == nl_count(s, pos));
                    assert(nl_count(s, pos + 2) == nl_count(s, pos + 1));
                }
                while !self.is_at_end() && self.source.as_str().get_char(self.current) != '\n'
                    invariant
                        self.source == old(self).source,
                        self.source@ == s,
                        self.length == s.len(),
                        s.len() < usize::MAX,
                        self.start == old(self).start,
                        self.tokens == old(self).tokens,
                        self.diagnostics == old(self).diagnostics,
                        self.line == old(self).line,
                        pos + 2 <= self.current <= self.length,
                        comment_end(s, pos + 2) == comment_end(s, self.current as int),
                        line_at(s, self.current as int) == line_at(s, pos),
                    decreases self.length - self.current,
                {
                    self.current = self.current + 1;
                }
                proof {
                    assert(self.current as int == comment_end(s, pos + 2));
                    assert(self.tokens.deep_view() =~= old(self).tokens.deep_view() + opt_seq(
                        st.token,
                    ));
                    assert(self.diagnostics.deep_view() =~= old(self).diagnostics.deep_view()
                        + opt_seq(st.diag));
                }
            } else {
                self.add_token(TokenType::SLASH, None);
                proof {
                    assert(nl_count(s, pos + 1) == nl_count(s, pos));
                    assert(self.tokens.deep_view() =~= old(self).tokens.deep_view() + opt_seq(
                        st.token,
                    ));
                    assert(self.diagnostics.deep_view() =~= old(self).diagnostics.deep_view()
                        + opt_seq(st.diag));
                }
            }
        } else if c == ' ' || c == '\r' || c == '\t' {
            proof {
                assert(nl_count(s, pos + 1) == nl_count(s, pos));
                assert(self.tokens.deep_view() =~= old(self).tokens.deep_view() + opt_seq(
                    st.token,
                ));
                assert(self.diagnostics.deep_view() =~= old(self).diagnostics.deep_view()
                    + opt_seq(st.diag));
            }
        } else if c == '\n' {
            proof {
                lemma_nl_count_le(s, pos);
            }
            self.line = self.line + 1;
            proof {
                assert(nl_count(s, pos + 1) == nl_count(s, pos) + 1);
                assert(self.tokens.deep_view() =~= old(self).tokens.deep_view() + opt_seq(
                    st.token,
                ));
                assert(self.diagnostics.deep_view() =~= old(self).diagnostics.deep_view()
                    + opt_seq(st.diag));
            }
        } else if c == '"' {
            proof {
                assert(nl_count(s, pos + 1) == nl_count(s, pos));
            }
            self.string();
            proof {
                lemma_string_end(s, pos + 1);
                assert(self.tokens.deep_view() =~= old(self).tokens.deep_view() + opt_seq(
                    st.token,
                ));
                assert(self.diagnostics.deep_view() =~= old(self).diagnostics.deep_view()
                    + opt_seq(st.diag));
            }
        } else if is_digit(c) {
            proof {
                assert(nl_count(s, pos + 1) == nl_count(s, pos));
            }
            self.number();
            proof {
                assert(self.tokens.deep_view() =~= old(self).tokens.deep_view() + opt_seq(
                    st.token,
                ));
                assert(self.diagnostics.deep_view() =~= old(self).diagnostics.deep_view()
                    + opt_seq(st.diag));
            }
        } else if is_alpha(c) {
            proof {
                assert(nl_count(s, pos + 1) == nl_count(s, pos));
            }
            self.identifier();
            proof {
                assert(self.tokens.deep_view() =~= old(self).tokens.deep_view() + opt_seq(
                    st.token,
                ));
                assert(self.diagnostics.deep_view() =~= old(self).diagnostics.deep_view()
                    + opt_seq(st.diag));
            }
        } else {
            // No dispatch rule matches: report and go on at the next
            // character.
            let d = Diagnostic { line: self.line, kind: LexErrorKind::UnknownCharacter(c) };
            self.diagnostics.push(d);
            proof {
                assert(nl_count(s, pos + 1) == nl_count(s, pos));
                assert(self.diagnostics.deep_view() =~= old(self).diagnostics.deep_view().push(
                    d@,
                ));
                assert(self.tokens.deep_view() =~= old(self).tokens.deep_view() + opt_seq(
                    st.token,
                ));
                assert(self.diagnostics.deep_view() =~= old(self).diagnostics.deep_view()
                    + opt_seq(st.diag));
            }
        }
    }

    /// Run the whole scan on a freshly made scanner: repeatedly mark the
    /// start of the next lexeme and dispatch on its first character; when
    /// the cursor reaches the end of the input, close the output with
    /// exactly one `EOF` token.  One instance serves one scan.
    pub fn scan_tokens(&mut self) -> (r: &Vec<Token>)
        requires
            old(self).fresh(),
        ensures
            final(self).wf(),
            final(self).src() == old(self).src(),
            final(self).spec_tokens() == scan_spec(old(self).src()).tokens,
            final(self).spec_diagnostics() == scan_spec(old(self).src()).diags,
            r.deep_view() == scan_spec(old(self).src()).tokens,
    {
        let ghost s = self.source@;
        proof {
            assert(self.tokens.deep_view() =~= Seq::<SpecToken>::empty());
            assert(self.diagnostics.deep_view() =~= Seq::<SpecDiagnostic>::empty());
            assert(scan_spec(s).tokens =~= self.tokens.deep_view() + scan_from(s, 0).tokens);
            assert(scan_spec(s).diags =~= self.diagnostics.deep_view() + scan_from(s, 0).diags);
        }
        while !self.is_at_end()
            invariant
                self.wf(),
                self.source == old(self).source,
                self.source@ == s,
                scan_spec(s).tokens == self.tokens.deep_view() + scan_from(
                    s,
                    self.current as int,
                ).tokens,
                scan_spec(s).diags == self.diagnostics.deep_view() + scan_from(
                    s,
                    self.current as int,
                ).diags,
            decreases self.length - self.current,
        {
            self.start = self.current;
            let ghost pos = self.current as int;
            self.scan_token();
            proof {
                let st = step(s, pos);
                lemma_step_advances(s, pos);
                assert(scan_from(s, pos).tokens =~= opt_seq(st.token) + scan_from(
                    s,
                    st.next_pos,
                ).tokens);
                assert(scan_from(s, pos).diags =~= opt_seq(st.diag) + scan_from(
                    s,
                    st.next_pos,
                ).diags);
                assert(scan_spec(s).tokens =~= self.tokens.deep_view() + scan_from(
                    s,
                    self.current as int,
                ).tokens);
                assert(scan_spec(s).diags =~= self.diagnostics.deep_view() + scan_from(
                    s,
                    self.current as int,
                ).diags);
            }
        }
        proof {
            assert(scan_from(s, self.current as int).tokens =~= seq![eof_token(s)]);
            assert(scan_from(s, self.current as int).diags =~= Seq::<SpecDiagnostic>::empty());
        }
        let ghost pre = self.tokens.deep_view();
        let eof_tok = Token::new(TokenType::EOF, "", None, self.line);
        self.tokens.push(eof_tok);
        proof {
            reveal_strlit("");
            assert(""@ =~= Seq::<char>::empty());
            assert(eof_tok@ == eof_token(s));
            assert(self.tokens.deep_view() =~= pre.push(eof_token(s)));
            assert(self.tokens.deep_view() =~= pre + seq![eof_token(s)]);
            assert(scan_spec(s).tokens =~= self.tokens.deep_view());
        }
        &self.tokens
    }
}

/// Scan one whole source unit: every token read from it, closed by the
/// one terminal `EOF` token, together with one diagnostic for every
/// lexical error met on the way, in order.  The bound on the length is a
/// machine limit: a buffer of `usize::MAX` characters cannot exist.
pub fn scan(source: &str) -> (r: (Vec<Token>, Vec<Diagnostic>))
    requires
        source@.len() < usize::MAX,
    ensures
        r.0.deep_view() == scan_spec(source@).tokens,
        r.1.deep_view() == scan_spec(source@).diags,
{
    let mut scanner = Scanner::new(source);
    scanner.scan_tokens();
    let Scanner { tokens, diagnostics, .. } = scanner;
    (tokens, diagnostics)
}

} // verus!
