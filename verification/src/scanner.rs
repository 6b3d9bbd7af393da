//! The scanner: consumes raw character input and produces the complete token
//! sequence, terminated by a single end-of-input marker, collecting every
//! lexical error along the way.
//!
//! The mathematical model is [`scan_src`]: a recursive function over the
//! character sequence that yields the tokens, the diagnostics and the final
//! line count. [`Scanner::new`] is proved to produce exactly that.

use vstd::prelude::*;
use vstd::string::{StrSliceExecFns, StringExecFns};

use crate::error::{diag_line, error, msgs_view, ErrorLog};
use crate::token::{
    lit_ok, spec_eof, spec_keyword, wf_tokens, SpecLit, SpecToken, Token, TokenLiteral, TokenType,
};

verus! {

// ---------------------------------------------------------------------------
// Character classes
// ---------------------------------------------------------------------------

/// A decimal digit.
pub open spec fn is_digit_char(c: char) -> bool {
    '0' <= c && c <= '9'
}

/// An ASCII letter or underscore: what may start an identifier.
pub open spec fn is_alpha_char(c: char) -> bool {
    ('a' <= c && c <= 'z') || ('A' <= c && c <= 'Z') || c == '_'
}

/// What may continue an identifier.
pub open spec fn is_alpha_numeric_char(c: char) -> bool {
    is_alpha_char(c) || is_digit_char(c)
}

/// The Unicode `White_Space` characters (newline included; the scanner
/// treats newline separately so that it can count lines).
pub open spec fn is_space_char(c: char) -> bool {
    c == ' ' || c == '\t' || c == '\n' || c == '\r' || c == '\u{b}' || c == '\u{c}' || c
        == '\u{85}' || c == '\u{a0}' || c == '\u{1680}' || ('\u{2000}' <= c && c <= '\u{200a}') || c
        == '\u{2028}' || c == '\u{2029}' || c == '\u{202f}' || c == '\u{205f}' || c == '\u{3000}'
}

/// Decimal digit test.
pub fn is_digit(c: char) -> (r: bool)
    ensures
        r == is_digit_char(c),
{
    '0' <= c && c <= '9'
}

/// Identifier-start test: ASCII letter or underscore.
pub fn is_alpha(c: char) -> (r: bool)
    ensures
        r == is_alpha_char(c),
{
    ('a' <= c && c <= 'z') || ('A' <= c && c <= 'Z') || c == '_'
}

/// Identifier-continuation test.
pub fn is_alpha_numeric(c: char) -> (r: bool)
    ensures
        r == is_alpha_numeric_char(c),
{
    is_alpha(c) || is_digit(c)
}

/// Unicode whitespace test.
fn is_space(c: char) -> (r: bool)
    ensures
        r == is_space_char(c),
{
    c == ' ' || c == '\t' || c == '\n' || c == '\r' || c == '\u{b}' || c == '\u{c}' || c
        == '\u{85}' || c == '\u{a0}' || c == '\u{1680}' || ('\u{2000}' <= c && c <= '\u{200a}') || c
        == '\u{2028}' || c == '\u{2029}' || c == '\u{202f}' || c == '\u{205f}' || c == '\u{3000}'
}

// ---------------------------------------------------------------------------
// Runs of characters
// ---------------------------------------------------------------------------

/// The length of the run of decimal digits starting at `i`.
pub open spec fn digits_len(src: Seq<char>, i: int) -> nat
    decreases src.len() - i,
{
    if 0 <= i < src.len() && is_digit_char(src[i]) {
        1 + digits_len(src, i + 1)
    } else {
        0
    }
}

/// The length of the run of identifier characters starting at `i`.
pub open spec fn alnum_len(src: Seq<char>, i: int) -> nat
    decreases src.len() - i,
{
    if 0 <= i < src.len() && is_alpha_numeric_char(src[i]) {
        1 + alnum_len(src, i + 1)
    } else {
        0
    }
}

/// The number of characters before the next newline (or the end of input),
/// starting at `i`: what a line comment consumes.
pub open spec fn non_newline_len(src: Seq<char>, i: int) -> nat
    decreases src.len() - i,
{
    if 0 <= i < src.len() && src[i] != '\n' {
        1 + non_newline_len(src, i + 1)
    } else {
        0
    }
}

/// The number of characters before the next double quote (or the end of
/// input), starting at `i`: the body of a string literal.
pub open spec fn non_quote_len(src: Seq<char>, i: int) -> nat
    decreases src.len() - i,
{
    if 0 <= i < src.len() && src[i] != '"' {
        1 + non_quote_len(src, i + 1)
    } else {
        0
    }
}

/// The number of newline characters in `src[a..b]`.
pub open spec fn nl_count(src: Seq<char>, a: int, b: int) -> nat
    decreases b - a,
{
    if !(0 <= a && a < b && b <= src.len()) {
        0
    } else {
        nl_count(src, a, b - 1) + (if src[b - 1] == '\n' {
            1nat
        } else {
            0nat
        })
    }
}

/// The position just after the block comment closes, scanning from `i` at
/// nesting `depth`; `None` when the comment is still open at the end of the
/// input. `/*` opens a further level, `*/` closes one.
pub open spec fn block_end(src: Seq<char>, i: int, depth: nat) -> Option<int>
    decreases src.len() - i,
{
    if !(0 <= i < src.len()) {
        None
    } else if src[i] == '/' && i + 1 < src.len() && src[i + 1] == '*' {
        block_end(src, i + 2, depth + 1)
    } else if src[i] == '*' && i + 1 < src.len() && src[i + 1] == '/' {
        if depth <= 1 {
            Some(i + 2)
        } else {
            block_end(src, i + 2, (depth - 1) as nat)
        }
    } else {
        block_end(src, i + 1, depth)
    }
}

/// Where a number literal starting at `i` ends: the digit run, and a
/// fraction only when a `.` is directly followed by a further digit.
pub open spec fn number_end(src: Seq<char>, i: int) -> int {
    let d1 = i + digits_len(src, i);
    if d1 + 1 < src.len() && src[d1] == '.' && is_digit_char(src[d1 + 1]) {
        d1 + 1 + digits_len(src, d1 + 1)
    } else {
        d1
    }
}

pub proof fn lemma_digits_len_le(src: Seq<char>, i: int)
    requires
        0 <= i <= src.len(),
    ensures
        i + digits_len(src, i) <= src.len(),
    decreases src.len() - i,
{
    if i < src.len() && is_digit_char(src[i]) {
        lemma_digits_len_le(src, i + 1);
    }
}

pub proof fn lemma_alnum_len_le(src: Seq<char>, i: int)
    requires
        0 <= i <= src.len(),
    ensures
        i + alnum_len(src, i) <= src.len(),
    decreases src.len() - i,
{
    if i < src.len() && is_alpha_numeric_char(src[i]) {
        lemma_alnum_len_le(src, i + 1);
    }
}

pub proof fn lemma_non_newline_len_le(src: Seq<char>, i: int)
    requires
        0 <= i <= src.len(),
    ensures
        i + non_newline_len(src, i) <= src.len(),
    decreases src.len() - i,
{
    if i < src.len() && src[i] != '\n' {
        lemma_non_newline_len_le(src, i + 1);
    }
}

pub proof fn lemma_non_quote_len_le(src: Seq<char>, i: int)
    requires
        0 <= i <= src.len(),
    ensures
        i + non_quote_len(src, i) <= src.len(),
    decreases src.len() - i,
{
    if i < src.len() && src[i] != '"' {
        lemma_non_quote_len_le(src, i + 1);
    }
}

pub proof fn lemma_block_end_bounds(src: Seq<char>, i: int, depth: nat)
    ensures
        block_end(src, i, depth) matches Some(e) ==> i < e <= src.len(),
    decreases src.len() - i,
{
    if 0 <= i < src.len() {
        if src[i] == '/' && i + 1 < src.len() && src[i + 1] == '*' {
            lemma_block_end_bounds(src, i + 2, depth + 1);
        } else if src[i] == '*' && i + 1 < src.len() && src[i + 1] == '/' {
            if depth > 1 {
                lemma_block_end_bounds(src, i + 2, (depth - 1) as nat);
            }
        } else {
            lemma_block_end_bounds(src, i + 1, depth);
        }
    }
}

// ---------------------------------------------------------------------------
// The scan itself
// ---------------------------------------------------------------------------

/// One diagnostic of the model: the line it is reported at and its message.
#[verifier::ext_equal]
pub struct Diag {
    pub line: nat,
    pub msg: Seq<char>,
}

/// Everything one scan produces: the token sequence (ending in the
/// end-of-input marker), the diagnostics in order, and the final line count.
#[verifier::ext_equal]
pub struct ScanOut {
    pub toks: Seq<SpecToken>,
    pub errs: Seq<Diag>,
    pub end_line: nat,
}

/// A token with no literal payload whose lexeme is `src[start..end]`.
pub open spec fn sym_token(src: Seq<char>, start: int, end: int, line: nat, k: TokenType) -> SpecToken {
    SpecToken { kind: k, lexeme: src.subrange(start, end), lit: None, line }
}

/// Prefixes one token to a scan result.
pub open spec fn with_tok(t: SpecToken, o: ScanOut) -> ScanOut {
    ScanOut { toks: seq![t] + o.toks, errs: o.errs, end_line: o.end_line }
}

/// Prefixes one diagnostic to a scan result.
pub open spec fn with_err(d: Diag, o: ScanOut) -> ScanOut {
    ScanOut { toks: o.toks, errs: seq![d] + o.errs, end_line: o.end_line }
}

/// The kind of the two-character operator `<c>=`.
pub open spec fn two_char_kind(c: char) -> TokenType {
    if c == '!' {
        TokenType::BangEqual
    } else if c == '=' {
        TokenType::EqualEqual
    } else if c == '<' {
        TokenType::LessEqual
    } else {
        TokenType::GreaterEqual
    }
}

/// The kind of `c` standing alone, for `c` in `! = < >`.
pub open spec fn one_char_kind(c: char) -> TokenType {
    if c == '!' {
        TokenType::Bang
    } else if c == '=' {
        TokenType::Equal
    } else if c == '<' {
        TokenType::Less
    } else {
        TokenType::Greater
    }
}

/// The scan of `src` from position `i` on line `line`: the remaining tokens,
/// diagnostics, and the line reached at the end of the input.
pub open spec fn scan_at(src: Seq<char>, i: int, line: nat) -> ScanOut
    decreases src.len() - i,
    via scan_at_decreases
{
    if !(0 <= i < src.len()) {
        ScanOut { toks: seq![spec_eof(line)], errs: Seq::empty(), end_line: line }
    } else {
        let c = src[i];
        if c == '(' {
            with_tok(sym_token(src, i, i + 1, line, TokenType::LeftParen), scan_at(src, i + 1, line))
        } else if c == ')' {
            with_tok(
                sym_token(src, i, i + 1, line, TokenType::RightParen),
                scan_at(src, i + 1, line),
            )
        } else if c == '{' {
            with_tok(sym_token(src, i, i + 1, line, TokenType::LeftBrace), scan_at(src, i + 1, line))
        } else if c == '}' {
            with_tok(
                sym_token(src, i, i + 1, line, TokenType::RightBrace),
                scan_at(src, i + 1, line),
            )
        } else if c == ',' {
            with_tok(sym_token(src, i, i + 1, line, TokenType::Comma), scan_at(src, i + 1, line))
        } else if c == '.' {
            with_tok(sym_token(src, i, i + 1, line, TokenType::Dot), scan_at(src, i + 1, line))
        } else if c == '-' {
            with_tok(sym_token(src, i, i + 1, line, TokenType::Minus), scan_at(src, i + 1, line))
        } else if c == '+' {
            with_tok(sym_token(src, i, i + 1, line, TokenType::Plus), scan_at(src, i + 1, line))
        } else if c == ';' {
            with_tok(sym_token(src, i, i + 1, line, TokenType::Semicolon), scan_at(src, i + 1, line))
        } else if c == '*' {
            with_tok(sym_token(src, i, i + 1, line, TokenType::Star), scan_at(src, i + 1, line))
        } else if c == '!' || c == '=' || c == '<' || c == '>' {
            if i + 1 < src.len() && src[i + 1] == '=' {
                with_tok(sym_token(src, i, i + 2, line, two_char_kind(c)), scan_at(src, i + 2, line))
            } else {
                with_tok(sym_token(src, i, i + 1, line, one_char_kind(c)), scan_at(src, i + 1, line))
            }
        } else if c == '/' {
            if i + 1 < src.len() && src[i + 1] == '/' {
                scan_at(src, i + 2 + non_newline_len(src, i + 2), line)
            } else if i + 1 < src.len() && src[i + 1] == '*' {
                match block_end(src, i + 2, 1) {
                    Some(e) => scan_at(src, e, (line + nl_count(src, i + 2, e)) as nat),
                    None => {
                        let line2 = (line + nl_count(src, i + 2, src.len() as int)) as nat;
                        with_err(
                            Diag { line: line2, msg: "Unterminated block comment"@ },
                            scan_at(src, src.len() as int, line2),
                        )
                    },
                }
            } else {
                with_tok(sym_token(src, i, i + 1, line, TokenType::Slash), scan_at(src, i + 1, line))
            }
        } else if c == '"' {
            let body = non_quote_len(src, i + 1);
            if i + 1 + body >= src.len() {
                let line2 = (line + nl_count(src, i + 1, src.len() as int)) as nat;
                with_err(
                    Diag { line: line2, msg: "Unterminated string"@ },
                    scan_at(src, src.len() as int, line2),
                )
            } else {
                let q = i + 1 + body;
                let line2 = (line + nl_count(src, i + 1, q)) as nat;
                with_tok(
                    SpecToken {
                        kind: TokenType::String,
                        lexeme: src.subrange(i, q + 1),
                        lit: Some(SpecLit::Str(src.subrange(i + 1, q))),
                        line: line2,
                    },
                    scan_at(src, q + 1, line2),
                )
            }
        } else if c == '\n' {
            scan_at(src, i + 1, line + 1)
        } else if is_space_char(c) {
            scan_at(src, i + 1, line)
        } else if is_digit_char(c) {
            let e = number_end(src, i);
            with_tok(
                SpecToken {
                    kind: TokenType::Number,
                    lexeme: src.subrange(i, e),
                    lit: Some(SpecLit::Num(src.subrange(i, e))),
                    line,
                },
                scan_at(src, e, line),
            )
        } else if is_alpha_char(c) {
            let e = i + 1 + alnum_len(src, i + 1);
            let text = src.subrange(i, e);
            let k = match spec_keyword(text) {
                Some(k) => k,
                None => TokenType::Identifier,
            };
            with_tok(SpecToken { kind: k, lexeme: text, lit: None, line }, scan_at(src, e, line))
        } else {
            with_err(Diag { line, msg: "Unexpected character."@ }, scan_at(src, i + 1, line))
        }
    }
}

#[via_fn]
proof fn scan_at_decreases(src: Seq<char>, i: int, line: nat) {
    if 0 <= i < src.len() {
        if i + 2 <= src.len() {
            lemma_non_newline_len_le(src, i + 2);
        }
        lemma_non_quote_len_le(src, i + 1);
        lemma_alnum_len_le(src, i + 1);
        lemma_block_end_bounds(src, i + 2, 1);
        lemma_digits_len_le(src, i);
        let d1 = i + digits_len(src, i);
        if 0 <= d1 + 1 <= src.len() {
            lemma_digits_len_le(src, d1 + 1);
        }
    }
}

/// The complete scan of a source text, from its start on line 1.
pub open spec fn scan_src(src: Seq<char>) -> ScanOut {
    scan_at(src, 0, 1)
}

/// Prefixing a token preserves token well-formedness of a scan result,
/// provided the token's own literal fits its kind.
proof fn lemma_wf_cons(tok: SpecToken, o: ScanOut)
    requires
        lit_ok(tok),
        o.toks.len() >= 1,
        o.toks[o.toks.len() - 1].kind == TokenType::Eof,
        forall|j: int| 0 <= j < o.toks.len() ==> lit_ok(#[trigger] o.toks[j]),
    ensures
        ({
            let w = with_tok(tok, o);
            &&& w.toks.len() >= 1
            &&& w.toks[w.toks.len() - 1].kind == TokenType::Eof
            &&& forall|j: int| 0 <= j < w.toks.len() ==> lit_ok(#[trigger] w.toks[j])
        }),
{
    let w = with_tok(tok, o);
    assert(w.toks[w.toks.len() - 1] == o.toks[o.toks.len() - 1]);
    assert forall|j: int| 0 <= j < w.toks.len() implies lit_ok(#[trigger] w.toks[j]) by {
        if j == 0 {
            assert(w.toks[j] == tok);
        } else {
            assert(w.toks[j] == o.toks[j - 1]);
        }
    }
}

/// Every scan result is fit for parsing: at least the end marker, which
/// comes last, and every literal matching its token's category.
pub proof fn lemma_scan_at_wf(src: Seq<char>, i: int, line: nat)
    ensures
        wf_tokens(scan_at(src, i, line).toks),
    decreases src.len() - i,
{
    let o = scan_at(src, i, line);
    if !(0 <= i < src.len()) {
        assert(o.toks == seq![spec_eof(line)]);
        assert(lit_ok(spec_eof(line)));
    } else {
        let c = src[i];
        if c == '(' || c == ')' || c == '{' || c == '}' || c == ',' || c == '.' || c == '-' || c
            == '+' || c == ';' || c == '*' {
            lemma_scan_at_wf(src, i + 1, line);
            lemma_wf_cons(o.toks[0], scan_at(src, i + 1, line));
        } else if c == '!' || c == '=' || c == '<' || c == '>' {
            if i + 1 < src.len() && src[i + 1] == '=' {
                lemma_scan_at_wf(src, i + 2, line);
                lemma_wf_cons(o.toks[0], scan_at(src, i + 2, line));
            } else {
                lemma_scan_at_wf(src, i + 1, line);
                lemma_wf_cons(o.toks[0], scan_at(src, i + 1, line));
            }
        } else if c == '/' {
            if i + 1 < src.len() && src[i + 1] == '/' {
                lemma_non_newline_len_le(src, i + 2);
                lemma_scan_at_wf(src, i + 2 + non_newline_len(src, i + 2), line);
            } else if i + 1 < src.len() && src[i + 1] == '*' {
                lemma_block_end_bounds(src, i + 2, 1);
                match block_end(src, i + 2, 1) {
                    Some(e) => {
                        lemma_scan_at_wf(src, e, (line + nl_count(src, i + 2, e)) as nat);
                    },
                    None => {
                        let line2 = (line + nl_count(src, i + 2, src.len() as int)) as nat;
                        lemma_scan_at_wf(src, src.len() as int, line2);
                    },
                }
            } else {
                lemma_scan_at_wf(src, i + 1, line);
                lemma_wf_cons(o.toks[0], scan_at(src, i + 1, line));
            }
        } else if c == '"' {
            let body = non_quote_len(src, i + 1);
            lemma_non_quote_len_le(src, i + 1);
            if i + 1 + body >= src.len() {
                let line2 = (line + nl_count(src, i + 1, src.len() as int)) as nat;
                lemma_scan_at_wf(src, src.len() as int, line2);
            } else {
                let q = i + 1 + body;
                let line2 = (line + nl_count(src, i + 1, q)) as nat;
                lemma_scan_at_wf(src, q + 1, line2);
                lemma_wf_cons(o.toks[0], scan_at(src, q + 1, line2));
            }
        } else if c == '\n' {
            lemma_scan_at_wf(src, i + 1, line + 1);
        } else if is_space_char(c) {
            lemma_scan_at_wf(src, i + 1, line);
        } else if is_digit_char(c) {
            let e = number_end(src, i);
            lemma_digits_len_le(src, i);
            if i + digits_len(src, i) + 1 <= src.len() {
                lemma_digits_len_le(src, i + digits_len(src, i) + 1);
            }
            lemma_scan_at_wf(src, e, line);
            lemma_wf_cons(o.toks[0], scan_at(src, e, line));
        } else if is_alpha_char(c) {
            let e = i + 1 + alnum_len(src, i + 1);
            lemma_alnum_len_le(src, i + 1);
            lemma_scan_at_wf(src, e, line);
            lemma_wf_cons(o.toks[0], scan_at(src, e, line));
        } else {
            lemma_scan_at_wf(src, i + 1, line);
        }
    }
}

/// The token sequence of a whole scan is fit for parsing.
pub proof fn lemma_scan_src_wf(src: Seq<char>)
    ensures
        wf_tokens(scan_src(src).toks),
{
    lemma_scan_at_wf(src, 0, 1);
}

/// The sequence invariants of a scan from `i` at `line`: every token's line
/// lies between `line` and the final line, lines never decrease along the
/// sequence, and the end marker stands only at the end.
pub open spec fn scan_lines_ok(o: ScanOut, line: nat) -> bool {
    &&& forall|k: int| 0 <= k < o.toks.len() ==> line <= #[trigger] o.toks[k].line <= o.end_line
    &&& forall|a: int, b: int|
        0 <= a <= b < o.toks.len() ==> #[trigger] o.toks[a].line <= #[trigger] o.toks[b].line
    &&& forall|k: int| 0 <= k < o.toks.len() - 1 ==> #[trigger] o.toks[k].kind != TokenType::Eof
}

/// As `scan_lines_ok` says, but for one token put in front of a scan whose
/// lines start no earlier than the token's.
proof fn lemma_lines_cons(tok: SpecToken, o: ScanOut, line: nat, mid: nat)
    requires
        scan_lines_ok(o, mid),
        line <= tok.line,
        tok.line == mid,
        tok.kind != TokenType::Eof,
        o.toks.len() >= 1,
        mid <= o.end_line,
    ensures
        scan_lines_ok(with_tok(tok, o), line),
{
    let w = with_tok(tok, o);
    assert forall|k: int| 0 <= k < w.toks.len() implies line <= #[trigger] w.toks[k].line
        <= w.end_line by {
        if k > 0 {
            assert(w.toks[k] == o.toks[k - 1]);
        }
    }
    assert forall|a: int, b: int| 0 <= a <= b < w.toks.len() implies #[trigger] w.toks[a].line
        <= #[trigger] w.toks[b].line by {
        if a > 0 {
            assert(w.toks[a] == o.toks[a - 1]);
        }
        if b > 0 {
            assert(w.toks[b] == o.toks[b - 1]);
        }
    }
    assert forall|k: int| 0 <= k < w.toks.len() - 1 implies #[trigger] w.toks[k].kind
        != TokenType::Eof by {
        if k > 0 {
            assert(w.toks[k] == o.toks[k - 1]);
        }
    }
}

/// Every scan respects the token-sequence invariants: one end marker, last;
/// lines non-decreasing, starting no earlier than the scan's own line and
/// reaching no further than the line at the end of the input.
pub proof fn lemma_scan_at_lines(src: Seq<char>, i: int, line: nat)
    ensures
        scan_lines_ok(scan_at(src, i, line), line),
        line <= scan_at(src, i, line).end_line,
        scan_at(src, i, line).toks.len() >= 1,
    decreases src.len() - i,
{
    let o = scan_at(src, i, line);
    if !(0 <= i < src.len()) {
        assert(o.toks == seq![spec_eof(line)]);
    } else {
        let c = src[i];
        if c == '(' || c == ')' || c == '{' || c == '}' || c == ',' || c == '.' || c == '-' || c
            == '+' || c == ';' || c == '*' {
            lemma_scan_at_lines(src, i + 1, line);
            lemma_lines_cons(o.toks[0], scan_at(src, i + 1, line), line, line);
        } else if c == '!' || c == '=' || c == '<' || c == '>' {
            if i + 1 < src.len() && src[i + 1] == '=' {
                lemma_scan_at_lines(src, i + 2, line);
                lemma_lines_cons(o.toks[0], scan_at(src, i + 2, line), line, line);
            } else {
                lemma_scan_at_lines(src, i + 1, line);
                lemma_lines_cons(o.toks[0], scan_at(src, i + 1, line), line, line);
            }
        } else if c == '/' {
            if i + 1 < src.len() && src[i + 1] == '/' {
                lemma_non_newline_len_le(src, i + 2);
                lemma_scan_at_lines(src, i + 2 + non_newline_len(src, i + 2), line);
            } else if i + 1 < src.len() && src[i + 1] == '*' {
                lemma_block_end_bounds(src, i + 2, 1);
                match block_end(src, i + 2, 1) {
                    Some(e) => {
                        let line2 = (line + nl_count(src, i + 2, e)) as nat;
                        lemma_scan_at_lines(src, e, line2);
                    },
                    None => {
                        let line2 = (line + nl_count(src, i + 2, src.len() as int)) as nat;
                        lemma_scan_at_lines(src, src.len() as int, line2);
                    },
                }
            } else {
                lemma_scan_at_lines(src, i + 1, line);
                lemma_lines_cons(o.toks[0], scan_at(src, i + 1, line), line, line);
            }
        } else if c == '"' {
            let body = non_quote_len(src, i + 1);
            lemma_non_quote_len_le(src, i + 1);
            if i + 1 + body >= src.len() {
                let line2 = (line + nl_count(src, i + 1, src.len() as int)) as nat;
                lemma_scan_at_lines(src, src.len() as int, line2);
            } else {
                let q = i + 1 + body;
                let line2 = (line + nl_count(src, i + 1, q)) as nat;
                lemma_scan_at_lines(src, q + 1, line2);
                lemma_lines_cons(o.toks[0], scan_at(src, q + 1, line2), line, line2);
            }
        } else if c == '\n' {
            lemma_scan_at_lines(src, i + 1, line + 1);
        } else if is_space_char(c) {
            lemma_scan_at_lines(src, i + 1, line);
        } else if is_digit_char(c) {
            let e = number_end(src, i);
            lemma_digits_len_le(src, i);
            if i + digits_len(src, i) + 1 <= src.len() {
                lemma_digits_len_le(src, i + digits_len(src, i) + 1);
            }
            lemma_scan_at_lines(src, e, line);
            lemma_lines_cons(o.toks[0], scan_at(src, e, line), line, line);
        } else if is_alpha_char(c) {
            let e = i + 1 + alnum_len(src, i + 1);
            lemma_alnum_len_le(src, i + 1);
            lemma_scan_at_lines(src, e, line);
            lemma_lines_cons(o.toks[0], scan_at(src, e, line), line, line);
        } else {
            lemma_scan_at_lines(src, i + 1, line);
        }
    }
}

/// A whole scan respects the token-sequence invariants, from line 1.
pub proof fn lemma_scan_src_lines(src: Seq<char>)
    ensures
        scan_lines_ok(scan_src(src), 1),
{
    lemma_scan_at_lines(src, 0, 1);
}

// ---------------------------------------------------------------------------
// The scanner
// ---------------------------------------------------------------------------

/// The views of a sequence of tokens.
pub open spec fn tokens_view(ts: Seq<Token>) -> Seq<SpecToken> {
    ts.map_values(|t: Token| t@)
}

/// How a scan diagnostic renders in the error log.
pub open spec fn render_diag(d: Diag) -> Seq<char> {
    diag_line(d.line, Seq::<char>::empty(), d.msg)
}

/// The rendered forms of a sequence of diagnostics.
pub open spec fn render_diags(ds: Seq<Diag>) -> Seq<Seq<char>> {
    ds.map_values(|d: Diag| render_diag(d))
}

/// A scan result with further tokens and diagnostics put in front.
pub open spec fn prepend(toks: Seq<SpecToken>, errs: Seq<Diag>, o: ScanOut) -> ScanOut {
    ScanOut { toks: toks + o.toks, errs: errs + o.errs, end_line: o.end_line }
}

/// The view of an optional literal.
pub open spec fn opt_lit_view(l: Option<TokenLiteral>) -> Option<SpecLit> {
    match l {
        Some(l) => Some(l@),
        None => None,
    }
}

proof fn lemma_tokens_view_push(ts: Seq<Token>, t: Token)
    ensures
        tokens_view(ts.push(t)) =~= tokens_view(ts).push(t@),
{
}

/// The scanner: the source characters, the tokens produced so far, the
/// mark/cursor pair, the current line, and the diagnostics log.
pub struct Scanner {
    pub source: String,
    pub tokens: Vec<Token>,
    pub start: usize,
    pub current: usize,
    pub line: usize,
    pub errors: ErrorLog,
}

impl Scanner {
    /// Internal consistency: the cursor stays inside the source and the
    /// line counter cannot outrun it (which also keeps it from overflowing).
    pub closed spec fn wf(self) -> bool {
        &&& self.current <= self.source@.len()
        &&& self.source@.len() < usize::MAX
        &&& 1 <= self.line
        &&& self.line <= 1 + self.current
    }

    /// Scans the whole text at once: the result carries the complete token
    /// sequence for it, with every lexical error recorded in `errors` and
    /// the latch set exactly when there was one.
    pub fn new(source: &str) -> (r: Scanner)
        requires
            source@.len() < usize::MAX,
        ensures
            r.source@ == source@,
            tokens_view(r.tokens@) == scan_src(source@).toks,
            msgs_view(r.errors.messages@) == render_diags(scan_src(source@).errs),
            r.errors.has_error == (scan_src(source@).errs.len() > 0),
    {
        let mut scanner = Scanner {
            source: String::from_str(source),
            tokens: Vec::new(),
            start: 0,
            current: 0,
            line: 1,
            errors: ErrorLog::new(),
        };
        scanner.scan_tokens();
        scanner
    }

    fn scan_tokens(&mut self)
        requires
            old(self).wf(),
            old(self).current == 0,
            old(self).line == 1,
            old(self).tokens@ == Seq::<Token>::empty(),
            old(self).errors.messages@ == Seq::<String>::empty(),
            !old(self).errors.has_error,
        ensures
            final(self).source == old(self).source,
            tokens_view(final(self).tokens@) == scan_src(old(self).source@).toks,
            msgs_view(final(self).errors.messages@) == render_diags(scan_src(old(self).source@).errs),
            final(self).errors.has_error == (scan_src(old(self).source@).errs.len() > 0),
    {
        let ghost src = self.source@;
        let ghost emitted: Seq<Diag> = Seq::empty();
        let mut emitted = Ghost(emitted);
        proof {
            assert(scan_src(src) =~= prepend(
                tokens_view(self.tokens@),
                emitted@,
                scan_at(src, self.current as int, self.line as nat),
            ));
            assert(msgs_view(self.errors.messages@) =~= render_diags(emitted@));
        }
        loop
            invariant
                self.wf(),
                self.source == old(self).source,
                self.source@ == src,
                scan_src(src) == prepend(
                    tokens_view(self.tokens@),
                    emitted@,
                    scan_at(src, self.current as int, self.line as nat),
                ),
                msgs_view(self.errors.messages@) == render_diags(emitted@),
                self.errors.has_error == (emitted@.len() > 0),
            ensures
                self.wf(),
                self.source == old(self).source,
                self.source@ == src,
                self.current >= src.len(),
                scan_src(src) == prepend(
                    tokens_view(self.tokens@),
                    emitted@,
                    scan_at(src, self.current as int, self.line as nat),
                ),
                msgs_view(self.errors.messages@) == render_diags(emitted@),
                self.errors.has_error == (emitted@.len() > 0),
            decreases src.len() - self.current,
        {
            if self.is_at_end() {
                break ;
            }
            self.start = self.current;
            let ghost toks_before = self.tokens@;
            let ghost errs_before = emitted@;
            let step = self.scan_token();
            proof {
                let delta = tokens_view(self.tokens@).skip(toks_before.len() as int);
                assert(tokens_view(self.tokens@) =~= tokens_view(toks_before) + delta);
                emitted@ = errs_before + step@;
                assert(scan_src(src) =~= prepend(
                    tokens_view(self.tokens@),
                    emitted@,
                    scan_at(src, self.current as int, self.line as nat),
                ));
                assert(msgs_view(self.errors.messages@) =~= render_diags(emitted@));
            }
        }
        let ghost n = self.tokens@.len();
        let line = self.line;
        self.tokens.push(Token::eof(line));
        proof {
            lemma_tokens_view_push(self.tokens@.subrange(0, n as int), self.tokens@[n as int]);
            assert(self.tokens@.subrange(0, n as int).push(self.tokens@[n as int]) =~= self.tokens@);
            assert(scan_at(src, self.current as int, self.line as nat) =~= ScanOut {
                toks: seq![spec_eof(self.line as nat)],
                errs: Seq::<Diag>::empty(),
                end_line: self.line as nat,
            });
            assert(tokens_view(self.tokens@) =~= scan_src(src).toks);
            assert(emitted@ =~= scan_src(src).errs);
        }
    }

    /// One token (or skipped run, or diagnostic) of the scan: consumes at
    /// least one character and leaves the scan result equation balanced.
    #[verifier::rlimit(100)]
    fn scan_token(&mut self) -> (emitted: Ghost<Seq<Diag>>)
        requires
            old(self).wf(),
            old(self).current < old(self).source@.len(),
            old(self).start == old(self).current,
        ensures
            final(self).wf(),
            final(self).source == old(self).source,
            old(self).current < final(self).current,
            final(self).tokens@.len() >= old(self).tokens@.len(),
            final(self).tokens@.subrange(0, old(self).tokens@.len() as int) == old(self).tokens@,
            scan_at(old(self).source@, old(self).current as int, old(self).line as nat) == prepend(
                tokens_view(final(self).tokens@).skip(old(self).tokens@.len() as int),
                emitted@,
                scan_at(final(self).source@, final(self).current as int, final(self).line as nat),
            ),
            msgs_view(final(self).errors.messages@) == msgs_view(old(self).errors.messages@)
                + render_diags(emitted@),
            final(self).errors.has_error == (old(self).errors.has_error || emitted@.len() > 0),
    {
        let ghost src = self.source@;
        let ghost i = self.current as int;
        let ghost line0 = self.line as nat;
        let ghost toks0 = self.tokens@;
        let ghost msgs0 = self.errors.messages@;
        let c = self.advance();
        let emitted: Ghost<Seq<Diag>> = match c {
            '(' => {
                self.add_token_sym(TokenType::LeftParen);
                Ghost(Seq::empty())
            },
            ')' => {
                self.add_token_sym(TokenType::RightParen);
                Ghost(Seq::empty())
            },
            '{' => {
                self.add_token_sym(TokenType::LeftBrace);
                Ghost(Seq::empty())
            },
            '}' => {
                self.add_token_sym(TokenType::RightBrace);
                Ghost(Seq::empty())
            },
            ',' => {
                self.add_token_sym(TokenType::Comma);
                Ghost(Seq::empty())
            },
            '.' => {
                self.add_token_sym(TokenType::Dot);
                Ghost(Seq::empty())
            },
            '-' => {
                self.add_token_sym(TokenType::Minus);
                Ghost(Seq::empty())
            },
            '+' => {
                self.add_token_sym(TokenType::Plus);
                Ghost(Seq::empty())
            },
            ';' => {
                self.add_token_sym(TokenType::Semicolon);
                Ghost(Seq::empty())
            },
            '*' => {
                self.add_token_sym(TokenType::Star);
                Ghost(Seq::empty())
            },
            '!' => {
                let token_type = self.match_token('=', TokenType::BangEqual, TokenType::Bang);
                self.add_token_sym(token_type);
                Ghost(Seq::empty())
            },
            '=' => {
                let token_type = self.match_token('=', TokenType::EqualEqual, TokenType::Equal);
                self.add_token_sym(token_type);
                Ghost(Seq::empty())
            },
            '<' => {
                let token_type = self.match_token('=', TokenType::LessEqual, TokenType::Less);
                self.add_token_sym(token_type);
                Ghost(Seq::empty())
            },
            '>' => {
                let token_type = self.match_token('=', TokenType::GreaterEqual, TokenType::Greater);
                self.add_token_sym(token_type);
                Ghost(Seq::empty())
            },
            '/' => self.slash(),
            '"' => self.string(),
            '\n' => {
                self.line += 1;
                Ghost(Seq::empty())
            },
            _ => {
                if is_space(c) {
                    Ghost(Seq::empty())
                } else if is_digit(c) {
                    self.number();
                    Ghost(Seq::empty())
                } else if is_alpha(c) {
                    self.identifier();
                    Ghost(Seq::empty())
                } else {
                    let line = self.line;
                    error(&mut self.errors, line, "Unexpected character.");
                    let ghost d: Seq<Diag> = seq![Diag { line: line0, msg: "Unexpected character."@ }];
                    Ghost(d)
                }
            },
        };
        proof {
            let out = scan_at(src, i, line0);
            let rest = scan_at(src, self.current as int, self.line as nat);
            let delta = tokens_view(self.tokens@).skip(toks0.len() as int);
            assert(tokens_view(self.tokens@).len() == self.tokens@.len());
            assert(tokens_view(toks0).len() == toks0.len());
            assert(self.tokens@.subrange(0, toks0.len() as int) =~= toks0);
            if self.tokens@.len() > toks0.len() {
                lemma_tokens_view_push(toks0, self.tokens@[toks0.len() as int]);
                assert(toks0.push(self.tokens@[toks0.len() as int]) =~= self.tokens@);
                assert(delta =~= seq![self.tokens@[toks0.len() as int]@]);
            } else {
                assert(delta =~= Seq::<SpecToken>::empty());
            }
            assert(out =~= prepend(delta, emitted@, rest));
            assert(msgs_view(self.errors.messages@) =~= msgs_view(msgs0) + render_diags(emitted@));
        }
        emitted
    }

    /// Distinguishes division, line comment and block comment after a `/`.
    fn slash(&mut self) -> (emitted: Ghost<Seq<Diag>>)
        requires
            old(self).wf(),
            old(self).start + 1 == old(self).current,
            old(self).current <= old(self).source@.len(),
            old(self).source@[old(self).start as int] == '/',
        ensures
            final(self).wf(),
            final(self).source == old(self).source,
            final(self).start == old(self).start,
            final(self).tokens@.len() >= old(self).tokens@.len(),
            final(self).tokens@.subrange(0, old(self).tokens@.len() as int) == old(self).tokens@,
            final(self).current > old(self).start,
            ({
                let src = old(self).source@;
                let i = old(self).start as int;
                let line = old(self).line as nat;
                if i + 1 < src.len() && src[i + 1] == '/' {
                    &&& final(self).current == i + 2 + non_newline_len(src, i + 2)
                    &&& final(self).line == old(self).line
                    &&& final(self).tokens == old(self).tokens
                    &&& final(self).errors == old(self).errors
                    &&& emitted@ == Seq::<Diag>::empty()
                } else if i + 1 < src.len() && src[i + 1] == '*' {
                    match block_end(src, i + 2, 1) {
                        Some(e) => {
                            &&& final(self).current == e
                            &&& final(self).line as nat == line + nl_count(src, i + 2, e)
                            &&& final(self).tokens == old(self).tokens
                            &&& final(self).errors == old(self).errors
                            &&& emitted@ == Seq::<Diag>::empty()
                        },
                        None => {
                            let line2 = (line + nl_count(src, i + 2, src.len() as int)) as nat;
                            &&& final(self).current == src.len()
                            &&& final(self).line as nat == line2
                            &&& final(self).tokens == old(self).tokens
                            &&& emitted@ == seq![
                                Diag { line: line2, msg: "Unterminated block comment"@ },
                            ]
                            &&& msgs_view(final(self).errors.messages@) == msgs_view(
                                old(self).errors.messages@,
                            ) + render_diags(emitted@)
                            &&& final(self).errors.has_error
                        },
                    }
                } else {
                    &&& final(self).current == old(self).current
                    &&& final(self).line == old(self).line
                    &&& tokens_view(final(self).tokens@) == tokens_view(old(self).tokens@).push(
                        sym_token(src, i, i + 1, line, TokenType::Slash),
                    )
                    &&& final(self).errors == old(self).errors
                    &&& emitted@ == Seq::<Diag>::empty()
                }
            }),
    {
        let emitted: Ghost<Seq<Diag>> = match self.peek() {
            '/' => {
                self.line_comment();
                Ghost(Seq::empty())
            },
            '*' => self.block_comment(),
            _ => {
                self.add_token_sym(TokenType::Slash);
                Ghost(Seq::empty())
            },
        };
        proof {
            assert(self.tokens@.subrange(0, old(self).tokens@.len() as int) =~= old(self).tokens@);
        }
        emitted
    }

    /// Consumes a `//` comment up to (not including) the next newline.
    fn line_comment(&mut self)
        requires
            old(self).wf(),
            old(self).current < old(self).source@.len(),
            old(self).source@[old(self).current as int] == '/',
        ensures
            final(self).wf(),
            final(self).source == old(self).source,
            final(self).start == old(self).start,
            final(self).tokens == old(self).tokens,
            final(self).errors == old(self).errors,
            final(self).line == old(self).line,
            final(self).current == old(self).current + 1 + non_newline_len(
                old(self).source@,
                old(self).current + 1,
            ),
    {
        let ghost src = self.source@;
        self.advance();
        let ghost j0 = self.current as int;
        loop
            invariant
                self.wf(),
                self.source == old(self).source,
                self.source@ == src,
                self.start == old(self).start,
                self.tokens == old(self).tokens,
                self.errors == old(self).errors,
                self.line == old(self).line,
                0 <= j0 <= self.current <= src.len(),
                non_newline_len(src, j0) == (self.current - j0) + non_newline_len(
                    src,
                    self.current as int,
                ),
            ensures
                self.wf(),
                self.source == old(self).source,
                self.source@ == src,
                self.start == old(self).start,
                self.tokens == old(self).tokens,
                self.errors == old(self).errors,
                self.line == old(self).line,
                self.current == j0 + non_newline_len(src, j0),
            decreases src.len() - self.current,
        {
            if self.is_at_end() {
                break ;
            }
            if self.peek() == '\n' {
                break ;
            }
            self.advance();
        }
    }

    /// Consumes a `/* ... */` comment, tracking nesting depth with an
    /// explicit counter; reports an unterminated comment once.
    fn block_comment(&mut self) -> (emitted: Ghost<Seq<Diag>>)
        requires
            old(self).wf(),
            old(self).current < old(self).source@.len(),
            old(self).source@[old(self).current as int] == '*',
        ensures
            final(self).wf(),
            final(self).source == old(self).source,
            final(self).start == old(self).start,
            final(self).tokens == old(self).tokens,
            final(self).current > old(self).current,
            ({
                let src = old(self).source@;
                let j0 = old(self).current + 1;
                let line = old(self).line as nat;
                match block_end(src, j0 as int, 1) {
                    Some(e) => {
                        &&& final(self).current == e
                        &&& final(self).line as nat == line + nl_count(src, j0 as int, e)
                        &&& final(self).errors == old(self).errors
                        &&& emitted@ == Seq::<Diag>::empty()
                    },
                    None => {
                        let line2 = (line + nl_count(src, j0 as int, src.len() as int)) as nat;
                        &&& final(self).current == src.len()
                        &&& final(self).line as nat == line2
                        &&& emitted@ == seq![
                            Diag { line: line2, msg: "Unterminated block comment"@ },
                        ]
                        &&& msgs_view(final(self).errors.messages@) == msgs_view(
                            old(self).errors.messages@,
                        ) + render_diags(emitted@)
                        &&& final(self).errors.has_error
                    },
                }
            }),
    {
        let ghost src = self.source@;
        self.advance();
        let ghost j0 = self.current as int;
        let ghost line0 = self.line as nat;
        let mut depth: usize = 1;
        loop
            invariant
                self.wf(),
                self.source == old(self).source,
                self.source@ == src,
                self.start == old(self).start,
                self.tokens == old(self).tokens,
                self.errors == old(self).errors,
                0 <= j0 <= self.current <= src.len(),
                self.line as nat == line0 + nl_count(src, j0, self.current as int),
                depth >= 1 ==> j0 + 2 * (depth - 1) <= self.current,
                depth >= 1 ==> block_end(src, self.current as int, depth as nat) == block_end(
                    src,
                    j0,
                    1,
                ),
                depth == 0 ==> block_end(src, j0, 1) == Some(self.current as int),
            ensures
                self.wf(),
                self.source == old(self).source,
                self.source@ == src,
                self.start == old(self).start,
                self.tokens == old(self).tokens,
                self.errors == old(self).errors,
                self.line as nat == line0 + nl_count(src, j0, self.current as int),
                if depth == 0 {
                    block_end(src, j0, 1) == Some(self.current as int)
                } else {
                    self.current == src.len() && block_end(src, j0, 1).is_none()
                },
            decreases src.len() - self.current + depth,
        {
            if depth == 0 {
                break ;
            }
            if self.is_at_end() {
                break ;
            }
            let ghost c0 = self.current as int;
            let c = self.peek();
            if c == '/' && self.peek_next() == '*' {
                proof {
                    assert(depth < usize::MAX) by {
                        assert(j0 + 2 * (depth - 1) <= self.current <= src.len() < usize::MAX);
                    }
                }
                self.advance();
                self.advance();
                depth += 1;
                proof {
                    assert(nl_count(src, j0, c0 + 1) == nl_count(src, j0, c0));
                    assert(nl_count(src, j0, c0 + 2) == nl_count(src, j0, c0 + 1));
                }
            } else if c == '*' && self.peek_next() == '/' {
                self.advance();
                self.advance();
                depth -= 1;
                proof {
                    assert(nl_count(src, j0, c0 + 1) == nl_count(src, j0, c0));
                    assert(nl_count(src, j0, c0 + 2) == nl_count(src, j0, c0 + 1));
                }
            } else {
                if c == '\n' {
                    self.line += 1;
                }
                self.advance();
                proof {
                    assert(nl_count(src, j0, c0 + 1) == nl_count(src, j0, c0) + (if src[c0] == '\n' {
                        1nat
                    } else {
                        0nat
                    }));
                }
            }
        }
        if depth > 0 {
            let line = self.line;
            error(&mut self.errors, line, "Unterminated block comment");
            proof {
                assert(msgs_view(self.errors.messages@) =~= msgs_view(old(self).errors.messages@)
                    + render_diags(
                    seq![Diag { line: self.line as nat, msg: "Unterminated block comment"@ }],
                ));
            }
            let ghost d: Seq<Diag> = seq![
                Diag { line: self.line as nat, msg: "Unterminated block comment"@ },
            ];
            Ghost(d)
        } else {
            Ghost(Seq::empty())
        }
    }

    /// Consumes an identifier or keyword starting at `start`.
    fn identifier(&mut self)
        requires
            old(self).wf(),
            old(self).start + 1 == old(self).current,
            old(self).current <= old(self).source@.len(),
            is_alpha_char(old(self).source@[old(self).start as int]),
        ensures
            final(self).wf(),
            final(self).source == old(self).source,
            final(self).start == old(self).start,
            final(self).errors == old(self).errors,
            final(self).line == old(self).line,
            final(self).current == old(self).start + 1 + alnum_len(
                old(self).source@,
                old(self).start + 1,
            ),
            final(self).tokens@.len() == old(self).tokens@.len() + 1,
            final(self).tokens@.subrange(0, old(self).tokens@.len() as int) == old(self).tokens@,
            ({
                let src = old(self).source@;
                let i = old(self).start as int;
                let e = final(self).current as int;
                let text = src.subrange(i, e);
                let k = match spec_keyword(text) {
                    Some(k) => k,
                    None => TokenType::Identifier,
                };
                tokens_view(final(self).tokens@) == tokens_view(old(self).tokens@).push(
                    SpecToken { kind: k, lexeme: text, lit: None, line: old(self).line as nat },
                )
            }),
    {
        let ghost src = self.source@;
        let ghost j0 = self.current as int;
        loop
            invariant
                self.wf(),
                self.source == old(self).source,
                self.source@ == src,
                self.start == old(self).start,
                self.tokens == old(self).tokens,
                self.errors == old(self).errors,
                self.line == old(self).line,
                0 <= j0 <= self.current <= src.len(),
                alnum_len(src, j0) == (self.current - j0) + alnum_len(src, self.current as int),
            ensures
                self.wf(),
                self.source == old(self).source,
                self.source@ == src,
                self.start == old(self).start,
                self.tokens == old(self).tokens,
                self.errors == old(self).errors,
                self.line == old(self).line,
                self.current == j0 + alnum_len(src, j0),
            decreases src.len() - self.current,
        {
            if self.is_at_end() {
                break ;
            }
            if !is_alpha_numeric(self.peek()) {
                break ;
            }
            self.advance();
        }
        let text = self.source.as_str().substring_char(self.start, self.current);
        let token_type = match TokenType::keyword(text) {
            Some(k) => k,
            None => TokenType::Identifier,
        };
        self.add_token_sym(token_type);
    }

    /// Consumes a number literal: a digit run, and a fraction when a `.` is
    /// directly followed by a digit. The token records the exact text.
    fn number(&mut self)
        requires
            old(self).wf(),
            old(self).start + 1 == old(self).current,
            old(self).current <= old(self).source@.len(),
            is_digit_char(old(self).source@[old(self).start as int]),
        ensures
            final(self).wf(),
            final(self).source == old(self).source,
            final(self).start == old(self).start,
            final(self).errors == old(self).errors,
            final(self).line == old(self).line,
            final(self).current == number_end(old(self).source@, old(self).start as int),
            final(self).current > old(self).start,
            final(self).tokens@.len() == old(self).tokens@.len() + 1,
            final(self).tokens@.subrange(0, old(self).tokens@.len() as int) == old(self).tokens@,
            ({
                let src = old(self).source@;
                let i = old(self).start as int;
                let e = final(self).current as int;
                tokens_view(final(self).tokens@) == tokens_view(old(self).tokens@).push(
                    SpecToken {
                        kind: TokenType::Number,
                        lexeme: src.subrange(i, e),
                        lit: Some(SpecLit::Num(src.subrange(i, e))),
                        line: old(self).line as nat,
                    },
                )
            }),
    {
        let ghost src = self.source@;
        let ghost i = self.start as int;
        self.digit_run();
        proof {
            assert(digits_len(src, i) == (self.current - i) as nat);
        }
        if self.peek() == '.' && is_digit(self.peek_next()) {
            self.advance();
            self.digit_run();
        }
        self.add_token_number();
    }

    /// Advances over the run of digits at the cursor.
    fn digit_run(&mut self)
        requires
            old(self).wf(),
        ensures
            final(self).wf(),
            final(self).source == old(self).source,
            final(self).start == old(self).start,
            final(self).tokens == old(self).tokens,
            final(self).errors == old(self).errors,
            final(self).line == old(self).line,
            final(self).current == old(self).current + digits_len(
                old(self).source@,
                old(self).current as int,
            ),
    {
        let ghost src = self.source@;
        let ghost j0 = self.current as int;
        loop
            invariant
                self.wf(),
                self.source == old(self).source,
                self.source@ == src,
                self.start == old(self).start,
                self.tokens == old(self).tokens,
                self.errors == old(self).errors,
                self.line == old(self).line,
                0 <= j0 <= self.current <= src.len(),
                digits_len(src, j0) == (self.current - j0) + digits_len(src, self.current as int),
            ensures
                self.wf(),
                self.source == old(self).source,
                self.source@ == src,
                self.start == old(self).start,
                self.tokens == old(self).tokens,
                self.errors == old(self).errors,
                self.line == old(self).line,
                self.current == j0 + digits_len(src, j0),
            decreases src.len() - self.current,
        {
            if self.is_at_end() {
                break ;
            }
            if !is_digit(self.peek()) {
                break ;
            }
            self.advance();
        }
    }

    /// Consumes a string literal; embedded newlines advance the line
    /// counter, and a missing closing quote is reported as a lexical error.
    fn string(&mut self) -> (emitted: Ghost<Seq<Diag>>)
        requires
            old(self).wf(),
            old(self).start + 1 == old(self).current,
            old(self).current <= old(self).source@.len(),
            old(self).source@[old(self).start as int] == '"',
        ensures
            final(self).wf(),
            final(self).source == old(self).source,
            final(self).start == old(self).start,
            final(self).tokens@.len() >= old(self).tokens@.len(),
            final(self).tokens@.subrange(0, old(self).tokens@.len() as int) == old(self).tokens@,
            ({
                let src = old(self).source@;
                let i = old(self).start as int;
                let line = old(self).line as nat;
                let body = non_quote_len(src, i + 1);
                if i + 1 + body >= src.len() {
                    let line2 = (line + nl_count(src, i + 1, src.len() as int)) as nat;
                    &&& final(self).current == src.len()
                    &&& final(self).line as nat == line2
                    &&& final(self).tokens == old(self).tokens
                    &&& emitted@ == seq![Diag { line: line2, msg: "Unterminated string"@ }]
                    &&& msgs_view(final(self).errors.messages@) == msgs_view(
                        old(self).errors.messages@,
                    ) + render_diags(emitted@)
                    &&& final(self).errors.has_error
                } else {
                    let q = i + 1 + body;
                    let line2 = (line + nl_count(src, i + 1, q)) as nat;
                    &&& final(self).current == q + 1
                    &&& final(self).line as nat == line2
                    &&& final(self).errors == old(self).errors
                    &&& emitted@ == Seq::<Diag>::empty()
                    &&& tokens_view(final(self).tokens@) == tokens_view(old(self).tokens@).push(
                        SpecToken {
                            kind: TokenType::String,
                            lexeme: src.subrange(i, q + 1),
                            lit: Some(SpecLit::Str(src.subrange(i + 1, q))),
                            line: line2,
                        },
                    )
                }
            }),
    {
        let ghost src = self.source@;
        let ghost j0 = self.current as int;
        let ghost line0 = self.line as nat;
        loop
            invariant
                self.wf(),
                self.source == old(self).source,
                self.source@ == src,
                self.start == old(self).start,
                self.tokens == old(self).tokens,
                self.errors == old(self).errors,
                0 <= j0 <= self.current <= src.len(),
                non_quote_len(src, j0) == (self.current - j0) + non_quote_len(
                    src,
                    self.current as int,
                ),
                self.line as nat == line0 + nl_count(src, j0, self.current as int),
            ensures
                self.wf(),
                self.source == old(self).source,
                self.source@ == src,
                self.start == old(self).start,
                self.tokens == old(self).tokens,
                self.errors == old(self).errors,
                self.current == j0 + non_quote_len(src, j0),
                self.line as nat == line0 + nl_count(src, j0, self.current as int),
                self.current < src.len() ==> src[self.current as int] == '"',
            decreases src.len() - self.current,
        {
            if self.is_at_end() {
                break ;
            }
            if self.peek() == '"' {
                break ;
            }
            let ghost c0 = self.current as int;
            if self.peek() == '\n' {
                self.line += 1;
            }
            self.advance();
            proof {
                assert(nl_count(src, j0, c0 + 1) == nl_count(src, j0, c0) + (if src[c0] == '\n' {
                    1nat
                } else {
                    0nat
                }));
            }
        }
        if self.is_at_end() {
            let line = self.line;
            error(&mut self.errors, line, "Unterminated string");
            proof {
                assert(msgs_view(self.errors.messages@) =~= msgs_view(old(self).errors.messages@)
                    + render_diags(seq![Diag { line: self.line as nat, msg: "Unterminated string"@ }]));
            }
            let ghost d: Seq<Diag> = seq![
                Diag { line: self.line as nat, msg: "Unterminated string"@ },
            ];
            proof {
                assert(self.tokens@.subrange(0, old(self).tokens@.len() as int) =~= old(
                    self,
                ).tokens@);
            }
            return Ghost(d);
        }
        self.advance();
        self.add_token_string();
        proof {
            assert(self.tokens@.subrange(0, old(self).tokens@.len() as int) =~= old(self).tokens@);
        }
        Ghost(Seq::empty())
    }

    /// The current character, `'\0'` at the end of the input.
    fn peek(&self) -> (c: char)
        ensures
            c == (if self.current < self.source@.len() {
                self.source@[self.current as int]
            } else {
                '\0'
            }),
    {
        if self.is_at_end() {
            '\0'
        } else {
            self.source.as_str().get_char(self.current)
        }
    }

    /// The character after the current one, `'\0'` past the end.
    fn peek_next(&self) -> (c: char)
        requires
            self.current <= self.source@.len(),
            self.source@.len() < usize::MAX,
        ensures
            c == (if self.current + 1 < self.source@.len() {
                self.source@[self.current + 1]
            } else {
                '\0'
            }),
    {
        let n = self.source.as_str().unicode_len();
        if self.current + 1 >= n {
            '\0'
        } else {
            self.source.as_str().get_char(self.current + 1)
        }
    }

    /// Picks between the two-character and the one-character reading,
    /// consuming the `expected_char` when it is next.
    fn match_token(
        &mut self,
        expected_char: char,
        expected_token_type: TokenType,
        otherwise_token_type: TokenType,
    ) -> (r: TokenType)
        requires
            old(self).source@.len() <= usize::MAX,
        ensures
            final(self).source == old(self).source,
            final(self).start == old(self).start,
            final(self).tokens == old(self).tokens,
            final(self).errors == old(self).errors,
            final(self).line == old(self).line,
            if old(self).current < old(self).source@.len() && old(self).source@[old(
                self,
            ).current as int] == expected_char {
                final(self).current == old(self).current + 1 && r == expected_token_type
            } else {
                final(self).current == old(self).current && r == otherwise_token_type
            },
    {
        if self.match_char(expected_char) {
            expected_token_type
        } else {
            otherwise_token_type
        }
    }

    /// Consumes the next character only when it equals `expected`.
    fn match_char(&mut self, expected: char) -> (r: bool)
        requires
            old(self).source@.len() <= usize::MAX,
        ensures
            final(self).source == old(self).source,
            final(self).start == old(self).start,
            final(self).tokens == old(self).tokens,
            final(self).errors == old(self).errors,
            final(self).line == old(self).line,
            r == (old(self).current < old(self).source@.len() && old(self).source@[old(
                self,
            ).current as int] == expected),
            final(self).current == if r {
                old(self).current + 1
            } else {
                old(self).current as int
            },
    {
        if self.is_at_end() {
            return false;
        }
        if self.source.as_str().get_char(self.current) != expected {
            return false;
        }
        self.current += 1;
        true
    }

    /// Consumes and returns the current character.
    fn advance(&mut self) -> (c: char)
        requires
            old(self).current < old(self).source@.len(),
            old(self).source@.len() <= usize::MAX,
        ensures
            final(self).source == old(self).source,
            final(self).start == old(self).start,
            final(self).tokens == old(self).tokens,
            final(self).errors == old(self).errors,
            final(self).line == old(self).line,
            final(self).current == old(self).current + 1,
            c == old(self).source@[old(self).current as int],
    {
        let pos = self.current;
        self.current += 1;
        self.source.as_str().get_char(pos)
    }

    /// Appends a token with no literal payload, its lexeme the marked text.
    fn add_token_sym(&mut self, token_type: TokenType)
        requires
            old(self).wf(),
            old(self).start <= old(self).current <= old(self).source@.len(),
        ensures
            final(self).wf(),
            final(self).source == old(self).source,
            final(self).start == old(self).start,
            final(self).errors == old(self).errors,
            final(self).line == old(self).line,
            final(self).current == old(self).current,
            final(self).tokens@.len() == old(self).tokens@.len() + 1,
            tokens_view(final(self).tokens@) == tokens_view(old(self).tokens@).push(
                sym_token(
                    old(self).source@,
                    old(self).start as int,
                    old(self).current as int,
                    old(self).line as nat,
                    token_type,
                ),
            ),
            final(self).tokens@.subrange(0, old(self).tokens@.len() as int) == old(self).tokens@,
    {
        let text = self.source.as_str().substring_char(self.start, self.current);
        self.add_token(token_type, String::from_str(text), None);
    }

    /// Appends a string token: the lexeme keeps the quotes, the literal
    /// value is the text between them.
    fn add_token_string(&mut self)
        requires
            old(self).wf(),
            old(self).start + 2 <= old(self).current <= old(self).source@.len(),
        ensures
            final(self).wf(),
            final(self).source == old(self).source,
            final(self).start == old(self).start,
            final(self).errors == old(self).errors,
            final(self).line == old(self).line,
            final(self).current == old(self).current,
            final(self).tokens@.len() == old(self).tokens@.len() + 1,
            tokens_view(final(self).tokens@) == tokens_view(old(self).tokens@).push(
                SpecToken {
                    kind: TokenType::String,
                    lexeme: old(self).source@.subrange(
                        old(self).start as int,
                        old(self).current as int,
                    ),
                    lit: Some(
                        SpecLit::Str(
                            old(self).source@.subrange(
                                old(self).start + 1,
                                old(self).current - 1,
                            ),
                        ),
                    ),
                    line: old(self).line as nat,
                },
            ),
            final(self).tokens@.subrange(0, old(self).tokens@.len() as int) == old(self).tokens@,
    {
        let text = self.source.as_str().substring_char(self.start, self.current);
        let value = self.source.as_str().substring_char(self.start + 1, self.current - 1);
        self.add_token(
            TokenType::String,
            String::from_str(text),
            Some(TokenLiteral::String(String::from_str(value))),
        );
    }

    /// Appends a number token; the literal records the exact numeric text.
    fn add_token_number(&mut self)
        requires
            old(self).wf(),
            old(self).start <= old(self).current <= old(self).source@.len(),
        ensures
            final(self).wf(),
            final(self).source == old(self).source,
            final(self).start == old(self).start,
            final(self).errors == old(self).errors,
            final(self).line == old(self).line,
            final(self).current == old(self).current,
            final(self).tokens@.len() == old(self).tokens@.len() + 1,
            tokens_view(final(self).tokens@) == tokens_view(old(self).tokens@).push(
                SpecToken {
                    kind: TokenType::Number,
                    lexeme: old(self).source@.subrange(
                        old(self).start as int,
                        old(self).current as int,
                    ),
                    lit: Some(
                        SpecLit::Num(
                            old(self).source@.subrange(
                                old(self).start as int,
                                old(self).current as int,
                            ),
                        ),
                    ),
                    line: old(self).line as nat,
                },
            ),
            final(self).tokens@.subrange(0, old(self).tokens@.len() as int) == old(self).tokens@,
    {
        let text = self.source.as_str().substring_char(self.start, self.current);
        let value = self.source.as_str().substring_char(self.start, self.current);
        self.add_token(
            TokenType::Number,
            String::from_str(text),
            Some(TokenLiteral::Number(String::from_str(value))),
        );
    }

    /// Appends one token at the current line.
    fn add_token(&mut self, token_type: TokenType, text: String, literal: Option<TokenLiteral>)
        requires
            old(self).wf(),
        ensures
            final(self).wf(),
            final(self).source == old(self).source,
            final(self).start == old(self).start,
            final(self).errors == old(self).errors,
            final(self).line == old(self).line,
            final(self).current == old(self).current,
            final(self).tokens@.len() == old(self).tokens@.len() + 1,
            final(self).tokens@ == old(self).tokens@.push(
                Token {
                    token_type,
                    lexeme: text,
                    literal,
                    line: old(self).line,
                },
            ),
            tokens_view(final(self).tokens@) == tokens_view(old(self).tokens@).push(
                SpecToken {
                    kind: token_type,
                    lexeme: text@,
                    lit: opt_lit_view(literal),
                    line: old(self).line as nat,
                },
            ),
            final(self).tokens@.subrange(0, old(self).tokens@.len() as int) == old(self).tokens@,
    {
        let line = self.line;
        self.tokens.push(Token::new(token_type, text, literal, line));
        proof {
            lemma_tokens_view_push(old(self).tokens@, self.tokens@.last());
            assert(tokens_view(self.tokens@) =~= tokens_view(old(self).tokens@).push(
                self.tokens@.last()@,
            ));
            assert(self.tokens@.last()@ =~= SpecToken {
                kind: token_type,
                lexeme: text@,
                lit: opt_lit_view(literal),
                line: old(self).line as nat,
            });
            assert(self.tokens@.subrange(0, old(self).tokens@.len() as int) =~= old(self).tokens@);
        }
    }

    /// Whether the cursor is past the last character.
    fn is_at_end(&self) -> (r: bool)
        ensures
            r == (self.current >= self.source@.len()),
    {
        self.current >= self.source.as_str().unicode_len()
    }
}

} // verus!
