//! Laws of the front end, each proved once and for all inputs: determinism
//! of the scan–parse–print pipeline, transparency of closed block comments,
//! and how unterminated strings and comments end a scan.

use vstd::prelude::*;

use crate::expressions::ast_printer::print_expr;
use crate::parser::sp_expression;
use crate::scanner::{
    alnum_len, block_end, digits_len, is_alpha_char, is_digit_char, is_space_char, nl_count,
    non_newline_len, non_quote_len, number_end, scan_at, scan_src, Diag, ScanOut,
};
use crate::token::spec_eof;

verus! {

proof fn lemma_digits_len_shift(src: Seq<char>, i: int, j: int)
    requires
        0 <= i <= j,
        i <= src.len(),
    ensures
        digits_len(src, j) == digits_len(src.skip(i), j - i),
    decreases src.len() - j,
{
    if j < src.len() && is_digit_char(src[j]) {
        assert(src.skip(i)[j - i] == src[j]);
        lemma_digits_len_shift(src, i, j + 1);
    } else if j < src.len() {
        assert(src.skip(i)[j - i] == src[j]);
    }
}

proof fn lemma_alnum_len_shift(src: Seq<char>, i: int, j: int)
    requires
        0 <= i <= j,
        i <= src.len(),
    ensures
        alnum_len(src, j) == alnum_len(src.skip(i), j - i),
    decreases src.len() - j,
{
    if j < src.len() && crate::scanner::is_alpha_numeric_char(src[j]) {
        assert(src.skip(i)[j - i] == src[j]);
        lemma_alnum_len_shift(src, i, j + 1);
    } else if j < src.len() {
        assert(src.skip(i)[j - i] == src[j]);
    }
}

proof fn lemma_non_newline_len_shift(src: Seq<char>, i: int, j: int)
    requires
        0 <= i <= j,
        i <= src.len(),
    ensures
        non_newline_len(src, j) == non_newline_len(src.skip(i), j - i),
    decreases src.len() - j,
{
    if j < src.len() && src[j] != '\n' {
        assert(src.skip(i)[j - i] == src[j]);
        lemma_non_newline_len_shift(src, i, j + 1);
    } else if j < src.len() {
        assert(src.skip(i)[j - i] == src[j]);
    }
}

proof fn lemma_non_quote_len_shift(src: Seq<char>, i: int, j: int)
    requires
        0 <= i <= j,
        i <= src.len(),
    ensures
        non_quote_len(src, j) == non_quote_len(src.skip(i), j - i),
    decreases src.len() - j,
{
    if j < src.len() && src[j] != '"' {
        assert(src.skip(i)[j - i] == src[j]);
        lemma_non_quote_len_shift(src, i, j + 1);
    } else if j < src.len() {
        assert(src.skip(i)[j - i] == src[j]);
    }
}

proof fn lemma_nl_count_shift(src: Seq<char>, i: int, a: int, b: int)
    requires
        0 <= i <= a,
        i <= src.len(),
    ensures
        nl_count(src, a, b) == nl_count(src.skip(i), a - i, b - i),
    decreases b - a,
{
    if 0 <= a && a < b && b <= src.len() {
        assert(src.skip(i)[b - 1 - i] == src[b - 1]);
        lemma_nl_count_shift(src, i, a, b - 1);
    }
}

proof fn lemma_block_end_shift(src: Seq<char>, i: int, j: int, depth: nat)
    requires
        0 <= i <= j,
        i <= src.len(),
    ensures
        block_end(src, j, depth) == (match block_end(src.skip(i), j - i, depth) {
            Some(e) => Some(e + i),
            None => None::<int>,
        }),
    decreases src.len() - j,
{
    let tail = src.skip(i);
    if 0 <= j < src.len() {
        assert(tail[j - i] == src[j]);
        if j + 1 < src.len() {
            assert(tail[j + 1 - i] == src[j + 1]);
        }
        if src[j] == '/' && j + 1 < src.len() && src[j + 1] == '*' {
            lemma_block_end_shift(src, i, j + 2, depth + 1);
        } else if src[j] == '*' && j + 1 < src.len() && src[j + 1] == '/' {
            if depth > 1 {
                lemma_block_end_shift(src, i, j + 2, (depth - 1) as nat);
            }
        } else {
            lemma_block_end_shift(src, i, j + 1, depth);
        }
    }
}

/// Scanning depends only on the text from the cursor on: the scan of `src`
/// from `j` equals the scan of the suffix `src[i..]` from `j - i`, token
/// for token and diagnostic for diagnostic.
proof fn lemma_scan_shift(src: Seq<char>, i: int, j: int, line: nat)
    requires
        0 <= i <= j <= src.len(),
    ensures
        scan_at(src, j, line) == scan_at(src.skip(i), j - i, line),
    decreases src.len() - j,
{
    let tail = src.skip(i);
    let o1 = scan_at(src, j, line);
    let o2 = scan_at(tail, j - i, line);
    if j >= src.len() {
        assert(o1 =~= o2);
    } else {
        let c = src[j];
        assert(tail[j - i] == c);
        if j + 1 < src.len() {
            assert(tail[j + 1 - i] == src[j + 1]);
        }
        if c == '(' || c == ')' || c == '{' || c == '}' || c == ',' || c == '.' || c == '-' || c
            == '+' || c == ';' || c == '*' {
            lemma_scan_shift(src, i, j + 1, line);
            assert(src.subrange(j, j + 1) =~= tail.subrange(j - i, j + 1 - i));
            assert(o1 =~= o2);
        } else if c == '!' || c == '=' || c == '<' || c == '>' {
            if j + 1 < src.len() && src[j + 1] == '=' {
                lemma_scan_shift(src, i, j + 2, line);
                assert(src.subrange(j, j + 2) =~= tail.subrange(j - i, j + 2 - i));
                assert(o1 =~= o2);
            } else {
                lemma_scan_shift(src, i, j + 1, line);
                assert(src.subrange(j, j + 1) =~= tail.subrange(j - i, j + 1 - i));
                assert(o1 =~= o2);
            }
        } else if c == '/' {
            if j + 1 < src.len() && src[j + 1] == '/' {
                lemma_non_newline_len_shift(src, i, j + 2);
                crate::scanner::lemma_non_newline_len_le(src, j + 2);
                lemma_scan_shift(src, i, j + 2 + non_newline_len(src, j + 2), line);
                assert(o1 =~= o2);
            } else if j + 1 < src.len() && src[j + 1] == '*' {
                lemma_block_end_shift(src, i, j + 2, 1);
                crate::scanner::lemma_block_end_bounds(src, j + 2, 1);
                lemma_nl_count_shift(src, i, j + 2, src.len() as int);
                match block_end(src, j + 2, 1) {
                    Some(e) => {
                        lemma_nl_count_shift(src, i, j + 2, e);
                        lemma_scan_shift(src, i, e, (line + nl_count(src, j + 2, e)) as nat);
                        assert(o1 =~= o2);
                    },
                    None => {
                        let line2 = (line + nl_count(src, j + 2, src.len() as int)) as nat;
                        lemma_scan_shift(src, i, src.len() as int, line2);
                        assert(o1 =~= o2);
                    },
                }
            } else {
                lemma_scan_shift(src, i, j + 1, line);
                assert(src.subrange(j, j + 1) =~= tail.subrange(j - i, j + 1 - i));
                assert(o1 =~= o2);
            }
        } else if c == '"' {
            lemma_non_quote_len_shift(src, i, j + 1);
            crate::scanner::lemma_non_quote_len_le(src, j + 1);
            let body = non_quote_len(src, j + 1);
            if j + 1 + body >= src.len() {
                let line2 = (line + nl_count(src, j + 1, src.len() as int)) as nat;
                lemma_nl_count_shift(src, i, j + 1, src.len() as int);
                lemma_scan_shift(src, i, src.len() as int, line2);
                assert(o1 =~= o2);
            } else {
                let q = j + 1 + body;
                let line2 = (line + nl_count(src, j + 1, q)) as nat;
                lemma_nl_count_shift(src, i, j + 1, q);
                lemma_scan_shift(src, i, q + 1, line2);
                assert(src.subrange(j, q + 1) =~= tail.subrange(j - i, q + 1 - i));
                assert(src.subrange(j + 1, q) =~= tail.subrange(j + 1 - i, q - i));
                assert(o1 =~= o2);
            }
        } else if c == '\n' {
            lemma_scan_shift(src, i, j + 1, line + 1);
            assert(o1 =~= o2);
        } else if is_space_char(c) {
            lemma_scan_shift(src, i, j + 1, line);
            assert(o1 =~= o2);
        } else if is_digit_char(c) {
            lemma_digits_len_shift(src, i, j);
            crate::scanner::lemma_digits_len_le(src, j);
            let d1 = j + digits_len(src, j);
            if d1 + 1 <= src.len() {
                lemma_digits_len_shift(src, i, d1 + 1);
                crate::scanner::lemma_digits_len_le(src, d1 + 1);
            }
            if d1 < src.len() {
                assert(tail[d1 - i] == src[d1]);
            }
            if d1 + 1 < src.len() {
                assert(tail[d1 + 1 - i] == src[d1 + 1]);
            }
            let e = number_end(src, j);
            assert(number_end(tail, j - i) == e - i);
            lemma_scan_shift(src, i, e, line);
            assert(src.subrange(j, e) =~= tail.subrange(j - i, e - i));
            assert(o1 =~= o2);
        } else if is_alpha_char(c) {
            lemma_alnum_len_shift(src, i, j + 1);
            crate::scanner::lemma_alnum_len_le(src, j + 1);
            let e = j + 1 + alnum_len(src, j + 1);
            lemma_scan_shift(src, i, e, line);
            assert(src.subrange(j, e) =~= tail.subrange(j - i, e - i));
            assert(o1 =~= o2);
        } else {
            lemma_scan_shift(src, i, j + 1, line);
            assert(o1 =~= o2);
        }
    }
}

/// A closed block comment that opens the source and holds no newline is as
/// if it were absent: the scan of the whole text equals the scan of the
/// text that follows the comment's closing `*/`.
pub proof fn lemma_leading_comment_absent(src: Seq<char>, rest: Seq<char>)
    requires
        src.len() >= 2,
        src[0] == '/',
        src[1] == '*',
        block_end(src, 2, 1) is Some,
        nl_count(src, 2, block_end(src, 2, 1)->Some_0) == 0,
        rest == src.skip(block_end(src, 2, 1)->Some_0),
    ensures
        scan_src(src) == scan_src(rest),
{
    let e = block_end(src, 2, 1)->Some_0;
    crate::scanner::lemma_block_end_bounds(src, 2, 1);
    lemma_block_comment_transparent(src, 0, 1);
    lemma_scan_shift(src, e, e, 1);
}

/// The pipeline is deterministic: on equal source texts the scans are equal
/// (tokens, diagnostics and line count alike), parsing the scanned tokens
/// gives equal outcomes, and printing successfully parsed trees gives equal
/// text. Every stage is a function of its input alone.
pub proof fn lemma_pipeline_deterministic(s1: Seq<char>, s2: Seq<char>)
    requires
        s1 == s2,
    ensures
        scan_src(s1) == scan_src(s2),
        sp_expression(scan_src(s1).toks, 0) == sp_expression(scan_src(s2).toks, 0),
        ({
            match (sp_expression(scan_src(s1).toks, 0), sp_expression(scan_src(s2).toks, 0)) {
                (Ok((e1, _)), Ok((e2, _))) => print_expr(e1) == print_expr(e2),
                (_, _) => true,
            }
        }),
{
}

/// A closed block comment contributes nothing: the scan of a source that
/// opens one at `i` equals the scan resumed just past its closing `*/`, the
/// line counter advanced by the newlines inside it. A comment without a
/// newline leaves the line counter alone.
pub proof fn lemma_block_comment_transparent(src: Seq<char>, i: int, line: nat)
    requires
        0 <= i,
        i + 1 < src.len(),
        src[i] == '/',
        src[i + 1] == '*',
        block_end(src, i + 2, 1) is Some,
    ensures
        ({
            let e = block_end(src, i + 2, 1)->Some_0;
            scan_at(src, i, line) == scan_at(src, e, (line + nl_count(src, i + 2, e)) as nat)
        }),
{
}

/// An unterminated block comment: when the `/*` at the start of the source
/// is never balanced, the scan yields the end marker alone and exactly one
/// diagnostic, `Unterminated block comment`, at the line reached at the end
/// of the input.
pub proof fn lemma_unterminated_block_comment(src: Seq<char>)
    requires
        src.len() >= 2,
        src[0] == '/',
        src[1] == '*',
        block_end(src, 2, 1) is None,
    ensures
        ({
            let o = scan_src(src);
            let line2 = (1 + nl_count(src, 2, src.len() as int)) as nat;
            &&& o.toks == seq![spec_eof(line2)]
            &&& o.errs == seq![Diag { line: line2, msg: "Unterminated block comment"@ }]
            &&& o.end_line == line2
        }),
{
    let o = scan_src(src);
    let line2 = (1 + nl_count(src, 2, src.len() as int)) as nat;
    let rest = scan_at(src, src.len() as int, line2);
    assert(rest == ScanOut {
        toks: seq![spec_eof(line2)],
        errs: Seq::<Diag>::empty(),
        end_line: line2,
    });
    assert(o.toks =~= seq![spec_eof(line2)]);
    assert(o.errs =~= seq![Diag { line: line2, msg: "Unterminated block comment"@ }]);
}

/// An unterminated string: a source that opens a quote it never closes
/// scans to the end marker alone — no string token — with exactly one
/// diagnostic, `Unterminated string`, at the line reached at the end of the
/// input.
pub proof fn lemma_unterminated_string(src: Seq<char>)
    requires
        src.len() >= 1,
        src[0] == '"',
        forall|k: int| 1 <= k < src.len() ==> src[k] != '"',
    ensures
        ({
            let o = scan_src(src);
            let line2 = (1 + nl_count(src, 1, src.len() as int)) as nat;
            &&& o.toks == seq![spec_eof(line2)]
            &&& o.errs == seq![Diag { line: line2, msg: "Unterminated string"@ }]
            &&& o.end_line == line2
        }),
{
    lemma_non_quote_all(src, 1);
    let o = scan_src(src);
    let line2 = (1 + nl_count(src, 1, src.len() as int)) as nat;
    let rest = scan_at(src, src.len() as int, line2);
    assert(rest == ScanOut {
        toks: seq![spec_eof(line2)],
        errs: Seq::<Diag>::empty(),
        end_line: line2,
    });
    assert(o.toks =~= seq![spec_eof(line2)]);
    assert(o.errs =~= seq![Diag { line: line2, msg: "Unterminated string"@ }]);
}

/// When no character from `a` on is a quote, the quote-free run from `a`
/// reaches the end of the input.
proof fn lemma_non_quote_all(src: Seq<char>, a: int)
    requires
        0 <= a <= src.len(),
        forall|k: int| a <= k < src.len() ==> src[k] != '"',
    ensures
        non_quote_len(src, a) == src.len() - a,
    decreases src.len() - a,
{
    if a < src.len() {
        lemma_non_quote_all(src, a + 1);
    }
}

/// Scanning the empty source yields exactly one token — the end marker at
/// line 1 — and no diagnostic.
pub proof fn lemma_empty_scan()
    ensures
        scan_src(Seq::<char>::empty()) == (ScanOut {
            toks: seq![spec_eof(1)],
            errs: Seq::<Diag>::empty(),
            end_line: 1,
        }),
{
    assert(scan_src(Seq::<char>::empty()) =~= ScanOut {
        toks: seq![spec_eof(1)],
        errs: Seq::<Diag>::empty(),
        end_line: 1,
    });
}

} // verus!
