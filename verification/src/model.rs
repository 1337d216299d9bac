//! The mathematical model of the scan: character classes, line counting,
//! maximal-run ends, the one-lexeme dispatch step, and the recursive
//! function that gives the token and diagnostic sequences produced from
//! any source text.  The executable scanner is proved against this model.

use vstd::prelude::*;
use crate::diagnostic::{LexErrorKind, SpecDiagnostic};
use crate::token_type::{spec_keyword, SpecLiteral, SpecToken, TokenType};

verus! {

// ---------------------------------------------------------------------------
// Character classes
// ---------------------------------------------------------------------------

/// Whitespace other than newline: consumed, no token, line unchanged.
pub open spec fn is_space_char(c: char) -> bool {
    c == ' ' || c == '\r' || c == '\t'
}

/// An ASCII decimal digit.
pub open spec fn is_digit_char(c: char) -> bool {
    ('0' as u32) <= (c as u32) && (c as u32) <= ('9' as u32)
}

/// An ASCII letter or underscore: starts an identifier or keyword.
pub open spec fn is_alpha_char(c: char) -> bool {
    (('a' as u32) <= (c as u32) && (c as u32) <= ('z' as u32)) || (('A' as u32) <= (c as u32) && (c
        as u32) <= ('Z' as u32)) || c == '_'
}

/// An ASCII letter, digit or underscore: continues an identifier.
pub open spec fn is_alnum_char(c: char) -> bool {
    is_alpha_char(c) || is_digit_char(c)
}

/// The ten characters that each map one-to-one to a kind.
pub open spec fn is_single_punct(c: char) -> bool {
    c == '(' || c == ')' || c == '{' || c == '}' || c == ',' || c == '.' || c == '-' || c == '+'
        || c == ';' || c == '*'
}

/// The kind of a single-character punctuation token.
pub open spec fn punct_kind(c: char) -> TokenType
    recommends
        is_single_punct(c),
{
    if c == '(' {
        TokenType::LEFT_PAREN
    } else if c == ')' {
        TokenType::RIGHT_PAREN
    } else if c == '{' {
        TokenType::LEFT_BRACE
    } else if c == '}' {
        TokenType::RIGHT_BRACE
    } else if c == ',' {
        TokenType::COMMA
    } else if c == '.' {
        TokenType::DOT
    } else if c == '-' {
        TokenType::MINUS
    } else if c == '+' {
        TokenType::PLUS
    } else if c == ';' {
        TokenType::SEMICOLON
    } else {
        TokenType::STAR
    }
}

/// The four characters that may combine with a following `=`.
pub open spec fn is_eq_candidate(c: char) -> bool {
    c == '!' || c == '=' || c == '<' || c == '>'
}

/// The bare (one-character) kind of an `=`-combinable character.
pub open spec fn eq_candidate_kind(c: char) -> TokenType
    recommends
        is_eq_candidate(c),
{
    if c == '!' {
        TokenType::BANG
    } else if c == '=' {
        TokenType::EQUAL
    } else if c == '<' {
        TokenType::LESS
    } else {
        TokenType::GREATER
    }
}

// ---------------------------------------------------------------------------
// Line counting
// ---------------------------------------------------------------------------

/// The number of newline characters among the first `n` characters of `s`.
pub open spec fn nl_count(s: Seq<char>, n: int) -> int
    recommends
        0 <= n <= s.len(),
    decreases n,
{
    if n <= 0 {
        0
    } else {
        nl_count(s, n - 1) + if 0 <= n - 1 < s.len() && s[n - 1] == '\n' {
            1int
        } else {
            0int
        }
    }
}

/// The 1-based line number of the cursor standing before position `n`.
pub open spec fn line_at(s: Seq<char>, n: int) -> int {
    1 + nl_count(s, n)
}

pub proof fn lemma_nl_count_le(s: Seq<char>, n: int)
    requires
        0 <= n <= s.len(),
    ensures
        0 <= nl_count(s, n) <= n,
    decreases n,
{
    if n > 0 {
        lemma_nl_count_le(s, n - 1);
    }
}

pub proof fn lemma_nl_count_monotone(s: Seq<char>, a: int, b: int)
    requires
        0 <= a <= b <= s.len(),
    ensures
        nl_count(s, a) <= nl_count(s, b),
    decreases b - a,
{
    if a < b {
        lemma_nl_count_monotone(s, a, b - 1);
    }
}

/// A stretch that holds no newline leaves the count unchanged.
pub proof fn lemma_nl_count_same(s: Seq<char>, a: int, b: int)
    requires
        0 <= a <= b <= s.len(),
        forall|k: int| a <= k < b ==> s[k] != '\n',
    ensures
        nl_count(s, b) == nl_count(s, a),
    decreases b - a,
{
    if a < b {
        lemma_nl_count_same(s, a, b - 1);
    }
}

// ---------------------------------------------------------------------------
// Maximal runs
// ---------------------------------------------------------------------------

/// The end of the maximal run of decimal digits starting at `i`.
pub open spec fn digit_run_end(s: Seq<char>, i: int) -> int
    decreases s.len() - i,
{
    if 0 <= i < s.len() && is_digit_char(s[i]) {
        digit_run_end(s, i + 1)
    } else {
        i
    }
}

pub proof fn lemma_digit_run_end(s: Seq<char>, i: int)
    requires
        0 <= i <= s.len(),
    ensures
        i <= digit_run_end(s, i) <= s.len(),
        forall|k: int| i <= k < digit_run_end(s, i) ==> is_digit_char(#[trigger] s[k]),
        digit_run_end(s, i) < s.len() ==> !is_digit_char(s[digit_run_end(s, i)]),
    decreases s.len() - i,
{
    if i < s.len() && is_digit_char(s[i]) {
        lemma_digit_run_end(s, i + 1);
    }
}

/// The end of the maximal run of identifier characters starting at `i`.
pub open spec fn ident_run_end(s: Seq<char>, i: int) -> int
    decreases s.len() - i,
{
    if 0 <= i < s.len() && is_alnum_char(s[i]) {
        ident_run_end(s, i + 1)
    } else {
        i
    }
}

pub proof fn lemma_ident_run_end(s: Seq<char>, i: int)
    requires
        0 <= i <= s.len(),
    ensures
        i <= ident_run_end(s, i) <= s.len(),
        forall|k: int| i <= k < ident_run_end(s, i) ==> is_alnum_char(#[trigger] s[k]),
        ident_run_end(s, i) < s.len() ==> !is_alnum_char(s[ident_run_end(s, i)]),
    decreases s.len() - i,
{
    if i < s.len() && is_alnum_char(s[i]) {
        lemma_ident_run_end(s, i + 1);
    }
}

/// The first position at or after `i` holding a newline, or the end of
/// the input: where a line comment stops (the newline is not consumed).
pub open spec fn comment_end(s: Seq<char>, i: int) -> int
    decreases s.len() - i,
{
    if 0 <= i < s.len() && s[i] != '\n' {
        comment_end(s, i + 1)
    } else {
        i
    }
}

pub proof fn lemma_comment_end(s: Seq<char>, i: int)
    requires
        0 <= i <= s.len(),
    ensures
        i <= comment_end(s, i) <= s.len(),
        forall|k: int| i <= k < comment_end(s, i) ==> #[trigger] s[k] != '\n',
        comment_end(s, i) < s.len() ==> s[comment_end(s, i)] == '\n',
    decreases s.len() - i,
{
    if i < s.len() && s[i] != '\n' {
        lemma_comment_end(s, i + 1);
    }
}

/// The first position at or after `i` holding a closing quote, or the end
/// of the input if the string literal is unterminated.
pub open spec fn string_end(s: Seq<char>, i: int) -> int
    decreases s.len() - i,
{
    if 0 <= i < s.len() && s[i] != '"' {
        string_end(s, i + 1)
    } else {
        i
    }
}

pub proof fn lemma_string_end(s: Seq<char>, i: int)
    requires
        0 <= i <= s.len(),
    ensures
        i <= string_end(s, i) <= s.len(),
        forall|k: int| i <= k < string_end(s, i) ==> #[trigger] s[k] != '"',
        string_end(s, i) < s.len() ==> s[string_end(s, i)] == '"',
    decreases s.len() - i,
{
    if i < s.len() && s[i] != '"' {
        lemma_string_end(s, i + 1);
    }
}

// ---------------------------------------------------------------------------
// One dispatch step
// ---------------------------------------------------------------------------

/// What one dispatch step does: where the cursor lands, and the token or
/// diagnostic (at most one of each) the step emits.
pub struct ScanStep {
    pub next_pos: int,
    pub token: Option<SpecToken>,
    pub diag: Option<SpecDiagnostic>,
}

/// Where a number lexeme starting at `pos` ends: a maximal digit run,
/// then a fractional part only when a `.` is directly followed by another
/// digit — a trailing dot is never consumed.
pub open spec fn number_end(s: Seq<char>, pos: int) -> int {
    let j = digit_run_end(s, pos);
    if j < s.len() && s[j] == '.' && j + 1 < s.len() && is_digit_char(s[j + 1]) {
        digit_run_end(s, j + 1)
    } else {
        j
    }
}

/// Recognize exactly one lexeme (or one ignorable run) at `pos`.  First
/// match wins: punctuation, `=`-combinable operators, slash or comment,
/// whitespace, newline, string literal, number, identifier or keyword,
/// and lastly the unknown-character error.
pub open spec fn step(s: Seq<char>, pos: int) -> ScanStep
    recommends
        0 <= pos < s.len(),
{
    let c = s[pos];
    if is_single_punct(c) {
        ScanStep {
            next_pos: pos + 1,
            token: Some(
                SpecToken {
                    kind: punct_kind(c),
                    lexeme: s.subrange(pos, pos + 1),
                    literal: None,
                    line: line_at(s, pos + 1),
                },
            ),
            diag: None,
        }
    } else if is_eq_candidate(c) {
        if pos + 1 < s.len() && s[pos + 1] == '=' {
            ScanStep {
                next_pos: pos + 2,
                token: Some(
                    SpecToken {
                        kind: eq_candidate_kind(c).spec_match_with_eq(),
                        lexeme: s.subrange(pos, pos + 2),
                        literal: None,
                        line: line_at(s, pos + 2),
                    },
                ),
                diag: None,
            }
        } else {
            ScanStep {
                next_pos: pos + 1,
                token: Some(
                    SpecToken {
                        kind: eq_candidate_kind(c),
                        lexeme: s.subrange(pos, pos + 1),
                        literal: None,
                        line: line_at(s, pos + 1),
                    },
                ),
                diag: None,
            }
        }
    } else if c == '/' {
        if pos + 1 < s.len() && s[pos + 1] == '/' {
            // A line comment: elided, not tokenized; the newline stays.
            ScanStep { next_pos: comment_end(s, pos + 2), token: None, diag: None }
        } else {
            ScanStep {
                next_pos: pos + 1,
                token: Some(
                    SpecToken {
                        kind: TokenType::SLASH,
                        lexeme: s.subrange(pos, pos + 1),
                        literal: None,
                        line: line_at(s, pos + 1),
                    },
                ),
                diag: None,
            }
        }
    } else if is_space_char(c) || c == '\n' {
        ScanStep { next_pos: pos + 1, token: None, diag: None }
    } else if c == '"' {
        let close = string_end(s, pos + 1);
        if close < s.len() {
            ScanStep {
                next_pos: close + 1,
                token: Some(
                    SpecToken {
                        kind: TokenType::STRING,
                        lexeme: s.subrange(pos, close + 1),
                        literal: Some(SpecLiteral::Str(s.subrange(pos + 1, close))),
                        line: line_at(s, close + 1),
                    },
                ),
                diag: None,
            }
        } else {
            // Unterminated: report, discard the partial literal, go on.
            ScanStep {
                next_pos: s.len() as int,
                token: None,
                diag: Some(
                    SpecDiagnostic {
                        line: line_at(s, s.len() as int),
                        kind: LexErrorKind::UnterminatedString,
                    },
                ),
            }
        }
    } else if is_digit_char(c) {
        let end = number_end(s, pos);
        ScanStep {
            next_pos: end,
            token: Some(
                SpecToken {
                    kind: TokenType::NUMBER,
                    lexeme: s.subrange(pos, end),
                    literal: Some(SpecLiteral::Num(s.subrange(pos, end))),
                    line: line_at(s, end),
                },
            ),
            diag: None,
        }
    } else if is_alpha_char(c) {
        let end = ident_run_end(s, pos);
        let text = s.subrange(pos, end);
        let kind = match spec_keyword(text) {
            Some(k) => k,
            None => TokenType::IDENTIFIER,
        };
        ScanStep {
            next_pos: end,
            token: Some(SpecToken { kind, lexeme: text, literal: None, line: line_at(s, end) }),
            diag: None,
        }
    } else {
        // No rule matches: report the character, skip it, go on.
        ScanStep {
            next_pos: pos + 1,
            token: None,
            diag: Some(
                SpecDiagnostic {
                    line: line_at(s, pos + 1),
                    kind: LexErrorKind::UnknownCharacter(c),
                },
            ),
        }
    }
}

/// Every dispatch step consumes at least one character and never runs
/// past the end of the input: the scan is bounded on any input.
pub proof fn lemma_step_advances(s: Seq<char>, pos: int)
    requires
        0 <= pos < s.len(),
    ensures
        pos < step(s, pos).next_pos <= s.len(),
{
    let c = s[pos];
    if c == '/' && pos + 1 < s.len() && s[pos + 1] == '/' {
        lemma_comment_end(s, pos + 2);
    }
    if c == '"' {
        lemma_string_end(s, pos + 1);
    }
    if is_digit_char(c) {
        lemma_digit_run_end(s, pos + 1);
        let j = digit_run_end(s, pos);
        if j < s.len() && s[j] == '.' && j + 1 < s.len() && is_digit_char(s[j + 1]) {
            lemma_digit_run_end(s, j + 2);
        }
    }
    if is_alpha_char(c) {
        lemma_ident_run_end(s, pos + 1);
    }
}

// ---------------------------------------------------------------------------
// The whole scan
// ---------------------------------------------------------------------------

/// What a whole scan produces: the token sequence and the diagnostics, in
/// the order they were emitted.
pub struct ScanResult {
    pub tokens: Seq<SpecToken>,
    pub diags: Seq<SpecDiagnostic>,
}

/// The terminal token: empty lexeme, no payload, the final line counter.
pub open spec fn eof_token(s: Seq<char>) -> SpecToken {
    SpecToken {
        kind: TokenType::EOF,
        lexeme: Seq::empty(),
        literal: None,
        line: line_at(s, s.len() as int),
    }
}

/// An optional emission as a sequence of zero or one elements.
pub open spec fn opt_seq<A>(x: Option<A>) -> Seq<A> {
    match x {
        Some(a) => seq![a],
        None => Seq::empty(),
    }
}

/// Everything emitted from position `pos` to the end of the input,
/// closing with exactly one `EOF` token.
pub open spec fn scan_from(s: Seq<char>, pos: int) -> ScanResult
    recommends
        0 <= pos <= s.len(),
    decreases s.len() - pos,
    via scan_from_decreases
{
    if pos < 0 || pos >= s.len() {
        ScanResult { tokens: seq![eof_token(s)], diags: Seq::empty() }
    } else {
        let st = step(s, pos);
        let rest = scan_from(s, st.next_pos);
        ScanResult {
            tokens: opt_seq(st.token) + rest.tokens,
            diags: opt_seq(st.diag) + rest.diags,
        }
    }
}

#[via_fn]
proof fn scan_from_decreases(s: Seq<char>, pos: int) {
    if 0 <= pos < s.len() {
        lemma_step_advances(s, pos);
    }
}

/// The complete scan of a source text.
pub open spec fn scan_spec(s: Seq<char>) -> ScanResult {
    scan_from(s, 0)
}

// ---------------------------------------------------------------------------
// Laws of the whole scan
// ---------------------------------------------------------------------------

/// No dispatch step ever emits an `EOF` token.
proof fn lemma_step_token_not_eof(s: Seq<char>, pos: int)
    requires
        0 <= pos < s.len(),
    ensures
        step(s, pos).token matches Some(t) ==> t.kind != TokenType::EOF,
{
}

proof fn lemma_scan_from_eof(s: Seq<char>, pos: int)
    requires
        0 <= pos <= s.len(),
    ensures
        scan_from(s, pos).tokens.len() >= 1,
        scan_from(s, pos).tokens.last().kind == TokenType::EOF,
        forall|i: int|
            0 <= i < scan_from(s, pos).tokens.len() - 1 ==> (#[trigger] scan_from(
                s,
                pos,
            ).tokens[i]).kind != TokenType::EOF,
    decreases s.len() - pos,
{
    if pos < s.len() {
        lemma_step_advances(s, pos);
        lemma_step_token_not_eof(s, pos);
        lemma_scan_from_eof(s, step(s, pos).next_pos);
    }
}

/// Law: every scan yields a non-empty token sequence whose last element
/// is `EOF`, and `EOF` occurs exactly once — only there.
pub proof fn lemma_scan_eof(s: Seq<char>)
    ensures
        scan_spec(s).tokens.len() >= 1,
        scan_spec(s).tokens.last().kind == TokenType::EOF,
        forall|i: int|
            0 <= i < scan_spec(s).tokens.len() - 1 ==> (#[trigger] scan_spec(s).tokens[i]).kind
                != TokenType::EOF,
{
    lemma_scan_from_eof(s, 0);
}

proof fn lemma_scan_from_lines(s: Seq<char>, pos: int)
    requires
        0 <= pos <= s.len(),
    ensures
        forall|i: int|
            0 <= i < scan_from(s, pos).tokens.len() ==> line_at(s, pos) <= (#[trigger] scan_from(
                s,
                pos,
            ).tokens[i]).line <= line_at(s, s.len() as int),
        forall|i: int|
            0 <= i < scan_from(s, pos).diags.len() ==> line_at(s, pos) <= (#[trigger] scan_from(
                s,
                pos,
            ).diags[i]).line <= line_at(s, s.len() as int),
        scan_from(s, pos).tokens.last().line == line_at(s, s.len() as int),
    decreases s.len() - pos,
{
    lemma_scan_from_eof(s, pos);
    if pos < s.len() {
        lemma_step_advances(s, pos);
        let st = step(s, pos);
        lemma_scan_from_lines(s, st.next_pos);
        lemma_nl_count_monotone(s, pos, st.next_pos);
        lemma_nl_count_monotone(s, st.next_pos, s.len() as int);
    }
}

/// Law: a source with exactly N newline characters keeps every token and
/// every diagnostic on a line in the range 1 to N+1, and the closing
/// `EOF` token stands exactly on line N+1.
pub proof fn lemma_scan_lines(s: Seq<char>)
    ensures
        forall|i: int|
            0 <= i < scan_spec(s).tokens.len() ==> 1 <= (#[trigger] scan_spec(s).tokens[i]).line
                <= nl_count(s, s.len() as int) + 1,
        forall|i: int|
            0 <= i < scan_spec(s).diags.len() ==> 1 <= (#[trigger] scan_spec(s).diags[i]).line
                <= nl_count(s, s.len() as int) + 1,
        scan_spec(s).tokens.last().line == nl_count(s, s.len() as int) + 1,
{
    lemma_scan_from_lines(s, 0);
}

} // verus!
