//! The recursive-descent grammar parser.
//!
//! The grammar, with whitespace and comments skippable between tokens:
//!
//! ```text
//! document    := (linespace* node)* linespace*
//! node        := annotation? identifier entry* children? terminator
//! entry       := value | identifier '=' value
//! children    := '{' document '}'
//! value       := annotation? (string | number | 'true' | 'false' | 'null')
//! annotation  := '(' identifier ')'
//! terminator  := ';' | newline | line comment | '}' | end of input
//! ```
//!
//! Inline whitespace (spaces, tabs, block comments) separates entries;
//! newlines, semicolons and line comments separate nodes.  The parser
//! commits to an alternative as soon as it has consumed a token of it and
//! reports failures instead of backtracking across them.
//!
//! The token layer is specified exactly: the identifier, annotation and
//! value parsers succeed precisely on well-formed tokens and return
//! precisely their end and their denotation.  Above it, a family of
//! canonical single-node shapes — a lone identifier, one value, one
//! property, two properties (where the duplicate-key discipline shows),
//! a child block, and the two ways a property value fails — carries
//! exact outcomes through the node, run and document parsers: the tree
//! on success, the diagnostic's offset and cause on failure.

use vstd::prelude::*;

use crate::chars::chars_vec;
use crate::chars::digit_val;
use crate::chars::digit_value;
use crate::chars::digits_end;
use crate::chars::digits_to_u64;
use crate::chars::ident_char;
use crate::chars::ident_start;
use crate::chars::inline_ws;
use crate::chars::int_of_digits;
use crate::chars::is_ident_char;
use crate::chars::is_ident_start;
use crate::chars::is_inline_ws;
use crate::chars::is_newline;
use crate::chars::newline;
use crate::chars::push_char;
use crate::chars::scan_digits;
use crate::chars::string_of_range;
use crate::error::ContextLabel;
use crate::error::FloatIssue;
use crate::error::IntIssue;
use crate::error::KdlError;
use crate::error::KdlErrorKind;
use crate::error::KdlParseError;
use crate::value::document_wf;
use crate::value::node_wf;
use crate::value::props_map;
use crate::value::props_wf;
use crate::value::KdlDocument;
use crate::value::KdlNode;
use crate::value::KdlProperty;
use crate::value::KdlScalar;
use crate::value::KdlValue;

verus! {

/// What every failure value of the parsing layer satisfies: the offset
/// lies in the input, and whenever a specific cause is present it is a
/// conversion failure — a context label never occupies the cause slot
/// while the parser unwinds.
pub open spec fn parse_err_wf(e: KdlParseError, pos: int, len: int) -> bool {
    &&& pos <= e.offset <= len
    &&& match e.kind {
        Some(k) => (k matches KdlErrorKind::ParseIntError(_)) || (k
            matches KdlErrorKind::ParseFloatError(_)),
        None => true,
    }
}

/// Skips past the matching `*/`, or to the end of the input when the block
/// comment is left open.
fn skip_block_comment(s: &Vec<char>, pos: usize) -> (r: usize)
    requires
        pos <= s@.len(),
    ensures
        pos <= r <= s@.len(),
{
    let mut i = pos;
    while i < s.len()
        invariant
            pos <= i <= s@.len(),
        decreases s@.len() - i,
    {
        if s[i] == '*' && i + 1 < s.len() && s[i + 1] == '/' {
            return i + 2;
        }
        i += 1;
    }
    i
}

/// A run of plain spaces and tabs from `pos` to `e`, with nothing at `e`
/// that more skipping could consume.
pub open spec fn plain_inline_run(s: Seq<char>, pos: int, e: int) -> bool {
    &&& 0 <= pos <= e <= s.len()
    &&& forall|k: int| pos <= k < e ==> is_inline_ws(#[trigger] s[k])
    &&& (e < s.len() ==> !is_inline_ws(s[e]) && s[e] != '/')
}

/// Skips spaces, tabs and block comments: the whitespace allowed between
/// the tokens of one node.  Over a run of plain whitespace the result is
/// exactly the run's end.
fn skip_inline_ws(s: &Vec<char>, pos: usize) -> (r: usize)
    requires
        pos <= s@.len(),
    ensures
        pos <= r <= s@.len(),
        r < s@.len() ==> !is_inline_ws(s@[r as int]),
        forall|e: int| plain_inline_run(s@, pos as int, e) ==> r == e,
{
    let mut i = pos;
    while i < s.len()
        invariant
            pos <= i <= s@.len(),
            forall|e: int| plain_inline_run(s@, pos as int, e) ==> i <= e,
        decreases s@.len() - i,
    {
        if inline_ws(s[i]) {
            i += 1;
        } else if s[i] == '/' && i + 1 < s.len() && s[i + 1] == '*' {
            proof {
                assert forall|e: int| !plain_inline_run(s@, pos as int, e) by {
                    if plain_inline_run(s@, pos as int, e) && i < e {
                        assert(is_inline_ws(s@[i as int]));
                    }
                }
            }
            i = skip_block_comment(s, i + 2);
        } else {
            return i;
        }
    }
    i
}

/// A run of plain spaces, tabs and newlines from `pos` to `e`, with
/// nothing at `e` that more skipping could consume.
pub open spec fn plain_linespace_run(s: Seq<char>, pos: int, e: int) -> bool {
    &&& 0 <= pos <= e <= s.len()
    &&& forall|k: int|
        pos <= k < e ==> is_inline_ws(#[trigger] s[k]) || is_newline(s[k])
    &&& (e < s.len() ==> !is_inline_ws(s[e]) && !is_newline(s[e]) && s[e] != '/')
}

/// Skips everything that may stand between two nodes: inline whitespace,
/// newlines, line comments and block comments.  Over a run of plain
/// whitespace and newlines the result is exactly the run's end.
fn skip_linespace(s: &Vec<char>, pos: usize) -> (r: usize)
    requires
        pos <= s@.len(),
    ensures
        pos <= r <= s@.len(),
        r < s@.len() ==> !is_inline_ws(s@[r as int]) && !is_newline(s@[r as int]),
        forall|e: int| plain_linespace_run(s@, pos as int, e) ==> r == e,
{
    let mut i = pos;
    while i < s.len()
        invariant
            pos <= i <= s@.len(),
            forall|e: int| plain_linespace_run(s@, pos as int, e) ==> i <= e,
        decreases s@.len() - i,
    {
        if inline_ws(s[i]) || newline(s[i]) {
            i += 1;
        } else if s[i] == '/' && (i + 1 < s.len() && (s[i + 1] == '*' || s[i + 1] == '/')) {
            proof {
                assert forall|e: int| !plain_linespace_run(s@, pos as int, e) by {
                    if plain_linespace_run(s@, pos as int, e) && i < e {
                        assert(is_inline_ws(s@[i as int]) || is_newline(s@[i as int]));
                    }
                }
            }
            if s[i + 1] == '*' {
                i = skip_block_comment(s, i + 2);
            } else {
                i = skip_line_comment(s, i + 2);
            }
        } else {
            return i;
        }
    }
    i
}

/// Skips to the newline that ends a line comment, or to the end of the
/// input.
fn skip_line_comment(s: &Vec<char>, pos: usize) -> (r: usize)
    requires
        pos <= s@.len(),
    ensures
        pos <= r <= s@.len(),
{
    let mut i = pos;
    while i < s.len() && !newline(s[i])
        invariant
            pos <= i <= s@.len(),
        decreases s@.len() - i,
    {
        i += 1;
    }
    i
}

/// The characters that may follow a backslash in a string literal.
pub open spec fn is_escape(c: char) -> bool {
    c == 'n' || c == 'r' || c == 't' || c == '\\' || c == '"' || c == '/'
}

/// The character an escape stands for.
pub open spec fn esc_char(c: char) -> char {
    if c == 'n' {
        '\n'
    } else if c == 'r' {
        '\r'
    } else if c == 't' {
        '\t'
    } else {
        c
    }
}

/// Where a string body that starts at `p` (just after the opening quote)
/// ends — the index just past the closing quote — or nothing when the
/// literal is unterminated or holds a bad escape.
pub open spec fn string_end(s: Seq<char>, p: int) -> Option<int>
    decreases s.len() - p,
{
    if !(0 <= p && p < s.len()) {
        None
    } else if s[p] == '"' {
        Some(p + 1)
    } else if s[p] == '\\' {
        if p + 1 < s.len() && is_escape(s[p + 1]) {
            string_end(s, p + 2)
        } else {
            None
        }
    } else {
        string_end(s, p + 1)
    }
}

/// The characters a string body that starts at `p` denotes, with escapes
/// resolved.
pub open spec fn string_content(s: Seq<char>, p: int) -> Seq<char>
    decreases s.len() - p,
{
    if !(0 <= p && p < s.len()) {
        Seq::empty()
    } else if s[p] == '"' {
        Seq::empty()
    } else if s[p] == '\\' {
        if p + 1 < s.len() && is_escape(s[p + 1]) {
            seq![esc_char(s[p + 1])] + string_content(s, p + 2)
        } else {
            Seq::empty()
        }
    } else {
        seq![s[p]] + string_content(s, p + 1)
    }
}

/// Exec mirror of [`is_escape`].
fn escape_ok(c: char) -> (r: bool)
    ensures
        r == is_escape(c),
{
    c == 'n' || c == 'r' || c == 't' || c == '\\' || c == '"' || c == '/'
}

/// Exec mirror of [`esc_char`].
fn escape_value(c: char) -> (r: char)
    ensures
        r == esc_char(c),
{
    if c == 'n' {
        '\n'
    } else if c == 'r' {
        '\r'
    } else if c == 't' {
        '\t'
    } else {
        c
    }
}

/// Parses the string literal whose opening quote stands at `pos`, and
/// returns the position just past the closing quote together with the
/// resolved contents.  A failure carries no specific cause and is labeled
/// with the string production.
pub fn parse_string(s: &Vec<char>, pos: usize) -> (r: Result<(usize, String), KdlParseError>)
    requires
        pos < s@.len(),
        s@[pos as int] == '"',
    ensures
        match r {
            Ok((p, t)) => pos < p <= s@.len() && string_end(s@, pos + 1) == Some(p as int)
                && t@ == string_content(s@, pos + 1),
            Err(e) => parse_err_wf(e, pos as int, s@.len() as int) && e.kind is None
                && e.context == Some(ContextLabel::StringLiteral) && string_end(s@, pos + 1)
                is None,
        },
{
    let n = s.len();
    let mut out = String::new();
    let mut i = pos + 1;
    proof {
        assert(Seq::<char>::empty() + string_content(s@, pos + 1) =~= string_content(s@, pos + 1));
    }
    while i < n
        invariant
            n == s@.len(),
            pos + 1 <= i <= s@.len(),
            string_end(s@, pos + 1) == string_end(s@, i as int),
            string_content(s@, pos + 1) == out@ + string_content(s@, i as int),
        decreases s@.len() - i,
    {
        let c = s[i];
        if c == '"' {
            proof {
                assert(out@ + string_content(s@, i as int) =~= out@);
            }
            return Ok((i + 1, out));
        } else if c == '\\' {
            if i + 1 < s.len() && escape_ok(s[i + 1]) {
                let ghost prev = out@;
                push_char(&mut out, escape_value(s[i + 1]));
                proof {
                    assert(string_content(s@, i as int) == seq![esc_char(s@[i + 1])]
                        + string_content(s@, i + 2));
                    assert(prev + string_content(s@, i as int) =~= out@ + string_content(
                        s@,
                        i + 2,
                    ));
                }
                i += 2;
            } else {
                let at = if i + 1 < s.len() {
                    i + 1
                } else {
                    s.len()
                };
                return Err(
                    KdlParseError::from_grammar_mismatch(at).add_context(
                        ContextLabel::StringLiteral,
                    ),
                );
            }
        } else {
            let ghost prev = out@;
            push_char(&mut out, c);
            proof {
                assert(string_content(s@, i as int) == seq![s@[i as int]] + string_content(
                    s@,
                    i + 1,
                ));
                assert(prev + string_content(s@, i as int) =~= out@ + string_content(s@, i + 1));
            }
            i += 1;
        }
    }
    Err(KdlParseError::from_grammar_mismatch(s.len()).add_context(ContextLabel::StringLiteral))
}

/// Where the bare identifier that starts at `pos` ends.
pub open spec fn ident_end(s: Seq<char>, pos: int) -> int
    decreases s.len() - pos,
{
    if 0 <= pos && pos < s.len() && is_ident_char(s[pos]) {
        ident_end(s, pos + 1)
    } else {
        pos
    }
}

/// The identifier run is bounded and maximal.
pub proof fn lemma_ident_end(s: Seq<char>, pos: int)
    requires
        0 <= pos <= s.len(),
    ensures
        pos <= ident_end(s, pos) <= s.len(),
        ident_end(s, pos) < s.len() ==> !is_ident_char(s[ident_end(s, pos)]),
    decreases s.len() - pos,
{
    if pos < s.len() && is_ident_char(s[pos]) {
        lemma_ident_end(s, pos + 1);
    }
}

/// Finds the end of the bare identifier starting at `pos`.
fn scan_ident(s: &Vec<char>, pos: usize) -> (r: usize)
    requires
        pos <= s@.len(),
    ensures
        r == ident_end(s@, pos as int),
        pos <= r <= s@.len(),
{
    let mut i = pos;
    while i < s.len() && ident_char(s[i])
        invariant
            pos <= i <= s@.len(),
            ident_end(s@, pos as int) == ident_end(s@, i as int),
        decreases s@.len() - i,
    {
        i += 1;
    }
    i
}

/// Where the identifier token at `pos` — bare word or quoted string —
/// ends, or nothing when no identifier stands there.
pub open spec fn ident_token_end(s: Seq<char>, pos: int) -> Option<int> {
    if !(0 <= pos < s.len()) {
        None
    } else if s[pos] == '"' {
        string_end(s, pos + 1)
    } else if is_ident_start(s[pos]) {
        Some(ident_end(s, pos))
    } else {
        None
    }
}

/// The characters the identifier token at `pos` denotes.
pub open spec fn ident_token_text(s: Seq<char>, pos: int) -> Seq<char> {
    if 0 <= pos < s.len() && s[pos] == '"' {
        string_content(s, pos + 1)
    } else if 0 <= pos < s.len() && is_ident_start(s[pos]) {
        s.subrange(pos, ident_end(s, pos))
    } else {
        Seq::empty()
    }
}

/// Parses an identifier: a bare word, or a quoted string; both yield the
/// same representation.  Succeeds exactly when an identifier token stands
/// at `pos`, and then returns exactly its end and its text.  A failure
/// carries no specific cause; callers label it with the production they
/// were attempting.
pub fn parse_identifier(s: &Vec<char>, pos: usize) -> (r: Result<(usize, String), KdlParseError>)
    requires
        pos <= s@.len(),
    ensures
        match r {
            Ok((p, t)) => pos < p <= s@.len() && ident_token_end(s@, pos as int) == Some(p as int)
                && t@ == ident_token_text(s@, pos as int),
            Err(e) => parse_err_wf(e, pos as int, s@.len() as int) && e.kind is None,
        },
        r is Ok <==> ident_token_end(s@, pos as int) is Some,
{
    if pos >= s.len() {
        return Err(KdlParseError::from_grammar_mismatch(pos));
    }
    let c = s[pos];
    if c == '"' {
        parse_string(s, pos)
    } else if ident_start(c) {
        let e = scan_ident(s, pos);
        proof {
            lemma_ident_end(s@, pos + 1);
            assert(ident_end(s@, pos as int) == ident_end(s@, pos + 1));
        }
        let t = string_of_range(s, pos, e);
        Ok((e, t))
    } else {
        Err(KdlParseError::from_grammar_mismatch(pos))
    }
}

/// Whether the number token at `pos` is negative.
pub open spec fn nm_neg(s: Seq<char>, pos: int) -> bool {
    0 <= pos < s.len() && s[pos] == '-'
}

/// Position after the optional sign of the number token at `pos`.
pub open spec fn nm_sign_end(s: Seq<char>, pos: int) -> int {
    if 0 <= pos < s.len() && (s[pos] == '+' || s[pos] == '-') {
        pos + 1
    } else {
        pos
    }
}

/// The radix of the number token at `pos`, selected by its `0x`, `0o` or
/// `0b` prefix, decimal without one.
pub open spec fn nm_radix(s: Seq<char>, pos: int) -> int {
    let p = nm_sign_end(s, pos);
    if p + 1 < s.len() && s[p] == '0' && s[p + 1] == 'x' {
        16
    } else if p + 1 < s.len() && s[p] == '0' && s[p + 1] == 'o' {
        8
    } else if p + 1 < s.len() && s[p] == '0' && s[p + 1] == 'b' {
        2
    } else {
        10
    }
}

/// Where the digits of the number token at `pos` start.
pub open spec fn nm_dstart(s: Seq<char>, pos: int) -> int {
    if nm_radix(s, pos) == 10 {
        nm_sign_end(s, pos)
    } else {
        nm_sign_end(s, pos) + 2
    }
}

/// Where the integer digit run of the number token at `pos` ends.
pub open spec fn nm_iend(s: Seq<char>, pos: int) -> int {
    digits_end(s, nm_dstart(s, pos), nm_radix(s, pos))
}

/// Whether the number token at `pos` has a fractional part.
pub open spec fn nm_frac_ok(s: Seq<char>, pos: int) -> bool {
    let e = nm_iend(s, pos);
    nm_radix(s, pos) == 10 && e + 1 < s.len() && s[e] == '.' && digit_val(s[e + 1]) < 10
}

/// Position after the fractional part of the number token at `pos`.
pub open spec fn nm_after_frac(s: Seq<char>, pos: int) -> int {
    if nm_frac_ok(s, pos) {
        digits_end(s, nm_iend(s, pos) + 1, 10)
    } else {
        nm_iend(s, pos)
    }
}

/// Where the digits of the exponent of the number token at `pos` start.
pub open spec fn nm_exp_dstart(s: Seq<char>, pos: int) -> int {
    let a = nm_after_frac(s, pos);
    if a + 1 < s.len() && (s[a + 1] == '+' || s[a + 1] == '-') {
        a + 2
    } else {
        a + 1
    }
}

/// Whether the number token at `pos` has an exponent part.
pub open spec fn nm_exp_ok(s: Seq<char>, pos: int) -> bool {
    let a = nm_after_frac(s, pos);
    let b = nm_exp_dstart(s, pos);
    nm_radix(s, pos) == 10 && a < s.len() && (s[a] == 'e' || s[a] == 'E') && b < s.len()
        && digit_val(s[b]) < 10
}

/// Whether the number token at `pos` is shaped as a float.
pub open spec fn nm_is_float(s: Seq<char>, pos: int) -> bool {
    nm_frac_ok(s, pos) || nm_exp_ok(s, pos)
}

/// Where the number token at `pos` ends.
pub open spec fn nm_end(s: Seq<char>, pos: int) -> int {
    if nm_exp_ok(s, pos) {
        digits_end(s, nm_exp_dstart(s, pos), 10)
    } else {
        nm_after_frac(s, pos)
    }
}

/// Whether the number token at `pos` is followed without separation by a
/// character that can belong to no number: the token is then malformed
/// rather than merely short.
pub open spec fn nm_junk(s: Seq<char>, pos: int) -> bool {
    let e = nm_end(s, pos);
    e < s.len() && (is_ident_char(s[e]) || s[e] == '.')
}

/// The magnitude the integer digit run of the number token at `pos`
/// denotes.
pub open spec fn nm_magnitude(s: Seq<char>, pos: int) -> int {
    int_of_digits(s.subrange(nm_dstart(s, pos), nm_iend(s, pos)), nm_radix(s, pos))
}

/// The largest magnitude an integer of the sign at `pos` may have.
pub open spec fn nm_limit(s: Seq<char>, pos: int) -> int {
    if nm_neg(s, pos) {
        0x8000_0000_0000_0000
    } else {
        0x7fff_ffff_ffff_ffff
    }
}

/// Parses the number token that starts at `pos`: an optional sign, an
/// optional radix prefix, digits, and — in decimal — an optional fraction
/// and exponent, which make the token a float.
///
/// Every failure is anchored at `pos`, the start of the literal, and
/// carries the conversion cause; no context label is attached here.
pub fn parse_number(s: &Vec<char>, pos: usize) -> (r: Result<(usize, KdlValue), KdlParseError>)
    requires
        pos < s@.len(),
        digit_val(s@[pos as int]) < 10 || s@[pos as int] == '+' || s@[pos as int] == '-',
    ensures
        match r {
            Ok((p, v)) => pos < p <= s@.len() && v.annotation is None && match v.scalar {
                KdlScalar::Float(t) => nm_is_float(s@, pos as int) && !nm_junk(s@, pos as int) && p
                    == nm_end(s@, pos as int) && t@ == s@.subrange(pos as int, p as int),
                KdlScalar::Int(n) => !nm_is_float(s@, pos as int) && !nm_junk(s@, pos as int)
                    && nm_iend(s@, pos as int) > nm_dstart(s@, pos as int) && p == nm_iend(
                    s@,
                    pos as int,
                ) && n as int == (if nm_neg(s@, pos as int) {
                    -nm_magnitude(s@, pos as int)
                } else {
                    nm_magnitude(s@, pos as int)
                }),
                _ => false,
            },
            Err(e) => e.offset == pos && e.context is None && match e.kind {
                Some(KdlErrorKind::ParseIntError(IntIssue::Empty)) => !nm_is_float(s@, pos as int)
                    && nm_iend(s@, pos as int) == nm_dstart(s@, pos as int),
                Some(KdlErrorKind::ParseIntError(IntIssue::InvalidDigit)) => !nm_is_float(
                    s@,
                    pos as int,
                ) && nm_iend(s@, pos as int) > nm_dstart(s@, pos as int) && nm_junk(s@, pos as int)
                    && s@[nm_end(s@, pos as int)] != '.',
                Some(KdlErrorKind::ParseIntError(IntIssue::PosOverflow)) => !nm_is_float(
                    s@,
                    pos as int,
                ) && !nm_junk(s@, pos as int) && !nm_neg(s@, pos as int) && nm_magnitude(
                    s@,
                    pos as int,
                ) > nm_limit(s@, pos as int),
                Some(KdlErrorKind::ParseIntError(IntIssue::NegOverflow)) => !nm_is_float(
                    s@,
                    pos as int,
                ) && !nm_junk(s@, pos as int) && nm_neg(s@, pos as int) && nm_magnitude(
                    s@,
                    pos as int,
                ) > nm_limit(s@, pos as int),
                Some(KdlErrorKind::ParseFloatError(FloatIssue::Invalid)) => (nm_is_float(
                    s@,
                    pos as int,
                ) && nm_junk(s@, pos as int)) || (!nm_is_float(s@, pos as int) && nm_iend(
                    s@,
                    pos as int,
                ) > nm_dstart(s@, pos as int) && nm_junk(s@, pos as int) && s@[nm_end(
                    s@,
                    pos as int,
                )] == '.'),
                _ => false,
            },
        },
        nm_is_float(s@, pos as int) && !nm_junk(s@, pos as int) ==> r is Ok,
        (!nm_is_float(s@, pos as int) && nm_iend(s@, pos as int) > nm_dstart(s@, pos as int)
            && !nm_junk(s@, pos as int)) ==> (r is Err <==> nm_magnitude(s@, pos as int) > nm_limit(
            s@,
            pos as int,
        )),
{
    let len = s.len();
    let (negf, p1) = if s[pos] == '-' {
        (true, pos + 1)
    } else if s[pos] == '+' {
        (false, pos + 1)
    } else {
        (false, pos)
    };
    let (radix, d0): (u32, usize) = if p1 < len && s[p1] == '0' && p1 + 1 < len && s[p1 + 1]
        == 'x' {
        (16, p1 + 2)
    } else if p1 < len && s[p1] == '0' && p1 + 1 < len && s[p1 + 1] == 'o' {
        (8, p1 + 2)
    } else if p1 < len && s[p1] == '0' && p1 + 1 < len && s[p1 + 1] == 'b' {
        (2, p1 + 2)
    } else {
        (10, p1)
    };
    proof {
        assert(radix as int == nm_radix(s@, pos as int));
        assert(d0 as int == nm_dstart(s@, pos as int));
    }
    let e1 = scan_digits(s, d0, radix);
    if radix == 10 {
        let frac = e1 < len && s[e1] == '.' && e1 + 1 < len && digit_value(s[e1 + 1]) < 10;
        let af = if frac {
            scan_digits(s, e1 + 1, 10)
        } else {
            e1
        };
        proof {
            assert(frac == nm_frac_ok(s@, pos as int));
            assert(af as int == nm_after_frac(s@, pos as int));
        }
        let mut eok = false;
        let mut nend = af;
        if af < len && (s[af] == 'e' || s[af] == 'E') {
            let b = if af + 1 < len && (s[af + 1] == '+' || s[af + 1] == '-') {
                af + 2
            } else {
                af + 1
            };
            proof {
                assert(b as int == nm_exp_dstart(s@, pos as int));
            }
            if b < len && digit_value(s[b]) < 10 {
                eok = true;
                nend = scan_digits(s, b, 10);
            }
        }
        proof {
            assert(eok == nm_exp_ok(s@, pos as int));
            assert(nend as int == nm_end(s@, pos as int));
        }
        if frac || eok {
            if nend < len && (ident_char(s[nend]) || s[nend] == '.') {
                return Err(KdlParseError::from_float_conversion(pos, FloatIssue::Invalid));
            }
            let t = string_of_range(s, pos, nend);
            return Ok((nend, KdlValue { annotation: None, scalar: KdlScalar::Float(t) }));
        }
    }
    proof {
        assert(!nm_is_float(s@, pos as int));
        assert(e1 as int == nm_end(s@, pos as int));
    }
    if e1 == d0 {
        return Err(KdlParseError::from_int_conversion(pos, IntIssue::Empty));
    }
    if e1 < len {
        let t = s[e1];
        if t == '.' {
            return Err(KdlParseError::from_float_conversion(pos, FloatIssue::Invalid));
        }
        if ident_char(t) {
            return Err(KdlParseError::from_int_conversion(pos, IntIssue::InvalidDigit));
        }
    }
    let limit: u64 = if negf {
        9223372036854775808
    } else {
        9223372036854775807
    };
    proof {
        crate::chars::lemma_digits_end(s@, d0 as int, radix as int);
    }
    match digits_to_u64(s, d0, e1, radix, limit) {
        None => Err(
            KdlParseError::from_int_conversion(
                pos,
                if negf {
                    IntIssue::NegOverflow
                } else {
                    IntIssue::PosOverflow
                },
            ),
        ),
        Some(mag) => {
            let n: i64 = if negf {
                if mag == 9223372036854775808 {
                    i64::MIN
                } else {
                    -(mag as i64)
                }
            } else {
                mag as i64
            };
            Ok((e1, KdlValue { annotation: None, scalar: KdlScalar::Int(n) }))
        },
    }
}

/// The characters `s[a..b]` spell `true`.
pub open spec fn is_kw_true(s: Seq<char>, a: int, b: int) -> bool {
    &&& 0 <= a
    &&& b == a + 4
    &&& b <= s.len()
    &&& s[a] == 't'
    &&& s[a + 1] == 'r'
    &&& s[a + 2] == 'u'
    &&& s[a + 3] == 'e'
}

/// The characters `s[a..b]` spell `false`.
pub open spec fn is_kw_false(s: Seq<char>, a: int, b: int) -> bool {
    &&& 0 <= a
    &&& b == a + 5
    &&& b <= s.len()
    &&& s[a] == 'f'
    &&& s[a + 1] == 'a'
    &&& s[a + 2] == 'l'
    &&& s[a + 3] == 's'
    &&& s[a + 4] == 'e'
}

/// The characters `s[a..b]` spell `null`.
pub open spec fn is_kw_null(s: Seq<char>, a: int, b: int) -> bool {
    &&& 0 <= a
    &&& b == a + 4
    &&& b <= s.len()
    &&& s[a] == 'n'
    &&& s[a + 1] == 'u'
    &&& s[a + 2] == 'l'
    &&& s[a + 3] == 'l'
}

/// The scalar a bare keyword denotes, or nothing when `s[a..b]` is no
/// keyword.
fn keyword_scalar(s: &Vec<char>, a: usize, b: usize) -> (r: Option<KdlScalar>)
    requires
        a <= b <= s@.len(),
    ensures
        match r {
            Some(k) => match k {
                KdlScalar::Bool(v) => if v {
                    is_kw_true(s@, a as int, b as int)
                } else {
                    is_kw_false(s@, a as int, b as int)
                },
                KdlScalar::Null => is_kw_null(s@, a as int, b as int),
                _ => false,
            },
            None => !is_kw_true(s@, a as int, b as int) && !is_kw_false(s@, a as int, b as int)
                && !is_kw_null(s@, a as int, b as int),
        },
{
    if b - a == 4 && s[a] == 't' && s[a + 1] == 'r' && s[a + 2] == 'u' && s[a + 3] == 'e' {
        Some(KdlScalar::Bool(true))
    } else if b - a == 5 && s[a] == 'f' && s[a + 1] == 'a' && s[a + 2] == 'l' && s[a + 3] == 's'
        && s[a + 4] == 'e' {
        Some(KdlScalar::Bool(false))
    } else if b - a == 4 && s[a] == 'n' && s[a + 1] == 'u' && s[a + 2] == 'l' && s[a + 3] == 'l' {
        Some(KdlScalar::Null)
    } else {
        None
    }
}

/// Where the `(identifier)` annotation that opens at `pos` ends, or
/// nothing when none stands there whole.
pub open spec fn ann_end(s: Seq<char>, pos: int) -> Option<int> {
    match ident_token_end(s, pos + 1) {
        Some(q) => if q < s.len() && s[q] == ')' {
            Some(q + 1)
        } else {
            None
        },
        None => None,
    }
}

/// Parses the `(identifier)` type annotation whose opening parenthesis
/// stands at `pos`: succeeds exactly when one stands there whole, and
/// then returns exactly its end and the identifier's text.
fn parse_annotation(s: &Vec<char>, pos: usize) -> (r: Result<(usize, String), KdlParseError>)
    requires
        pos < s@.len(),
        s@[pos as int] == '(',
    ensures
        match r {
            Ok((p, t)) => pos < p <= s@.len() && ann_end(s@, pos as int) == Some(p as int) && t@
                == ident_token_text(s@, pos + 1),
            Err(e) => parse_err_wf(e, pos as int, s@.len() as int) && e.context is Some,
        },
        r is Ok <==> ann_end(s@, pos as int) is Some,
{
    let n = s.len();
    match parse_identifier(s, pos + 1) {
        Err(e) => Err(e.add_context(ContextLabel::TypeAnnotation)),
        Ok((p, t)) => {
            if p < n && s[p] == ')' {
                Ok((p + 1, t))
            } else {
                Err(
                    KdlParseError::from_grammar_mismatch(p).add_context(
                        ContextLabel::AnnotationClose,
                    ),
                )
            }
        },
    }
}

/// The token `s[pos..p]` denotes exactly the scalar `v`.
pub open spec fn scalar_token(s: Seq<char>, pos: int, p: int, v: KdlScalar) -> bool {
    match v {
        KdlScalar::Str(t) => s[pos] == '"' && string_end(s, pos + 1) == Some(p) && t@
            == string_content(s, pos + 1),
        KdlScalar::Int(n) => !nm_is_float(s, pos) && !nm_junk(s, pos) && p == nm_iend(s, pos) && (
        n as int == if nm_neg(s, pos) {
            -nm_magnitude(s, pos)
        } else {
            nm_magnitude(s, pos)
        }),
        KdlScalar::Float(t) => nm_is_float(s, pos) && !nm_junk(s, pos) && p == nm_end(s, pos) && t@
            == s.subrange(pos, p),
        KdlScalar::Bool(b) => if b {
            is_kw_true(s, pos, p)
        } else {
            is_kw_false(s, pos, p)
        },
        KdlScalar::Null => is_kw_null(s, pos, p),
    }
}

/// Where the scalar token at `a` ends — a well-formed string, keyword or
/// number — or nothing when no scalar a value parse accepts stands there.
pub open spec fn scalar_end(s: Seq<char>, a: int) -> Option<int> {
    if !(0 <= a < s.len()) {
        None
    } else if s[a] == '"' {
        string_end(s, a + 1)
    } else if is_ident_start(s[a]) {
        if is_kw_true(s, a, ident_end(s, a)) || is_kw_false(s, a, ident_end(s, a)) || is_kw_null(
            s,
            a,
            ident_end(s, a),
        ) {
            Some(ident_end(s, a))
        } else {
            None
        }
    } else if digit_val(s[a]) < 10 || s[a] == '+' || s[a] == '-' {
        if nm_junk(s, a) {
            None
        } else if nm_is_float(s, a) {
            Some(nm_end(s, a))
        } else if nm_iend(s, a) > nm_dstart(s, a) && nm_magnitude(s, a) <= nm_limit(s, a) {
            Some(nm_iend(s, a))
        } else {
            None
        }
    } else {
        None
    }
}

/// Where the value token at `a` — optional annotation, then scalar —
/// ends, or nothing when no well-formed value stands there.
pub open spec fn value_token_end(s: Seq<char>, a: int) -> Option<int> {
    if 0 <= a < s.len() && s[a] == '(' {
        match ann_end(s, a) {
            Some(q) => scalar_end(s, q),
            None => None,
        }
    } else {
        scalar_end(s, a)
    }
}

/// The value `v` is exactly what the token `s[a..b]` denotes, annotation
/// included.
pub open spec fn value_at(s: Seq<char>, a: int, b: int, v: KdlValue) -> bool {
    if 0 <= a < s.len() && s[a] == '(' {
        &&& (ann_end(s, a) matches Some(q) && scalar_token(s, q, b, v.scalar))
        &&& (v.annotation matches Some(t) && t@ == ident_token_text(s, a + 1))
    } else {
        v.annotation is None && scalar_token(s, a, b, v.scalar)
    }
}

/// An integer token at `a` that is well-formed except that its magnitude
/// is out of range: the one way a value parse fails with a conversion
/// cause rather than a grammar mismatch.
pub open spec fn overflow_number_at(s: Seq<char>, a: int) -> bool {
    &&& 0 <= a < s.len()
    &&& (digit_val(s[a]) < 10 || s[a] == '+' || s[a] == '-')
    &&& !nm_is_float(s, a)
    &&& !nm_junk(s, a)
    &&& nm_iend(s, a) > nm_dstart(s, a)
    &&& nm_magnitude(s, a) > nm_limit(s, a)
}

/// The overflow an out-of-range integer token at `a` reports.
pub open spec fn overflow_issue(s: Seq<char>, a: int) -> IntIssue {
    if nm_neg(s, a) {
        IntIssue::NegOverflow
    } else {
        IntIssue::PosOverflow
    }
}

/// A bare word at `a` that no value parse accepts: word-shaped but not a
/// keyword literal.  No conversion is attempted on it, so the failure is
/// a pure grammar mismatch at the word's start.
pub open spec fn bad_word_value_at(s: Seq<char>, a: int) -> bool {
    &&& 0 <= a < s.len()
    &&& is_ident_start(s[a])
    &&& !is_kw_true(s, a, ident_end(s, a))
    &&& !is_kw_false(s, a, ident_end(s, a))
    &&& !is_kw_null(s, a, ident_end(s, a))
}

/// Parses a value without an annotation: a string, a number, `true`,
/// `false` or `null`.  Succeeds exactly when a well-formed scalar token
/// stands at `pos`, and then returns exactly its end and its value.
/// Every failure leaves this function labeled.
fn parse_value_bare(s: &Vec<char>, pos: usize) -> (r: Result<(usize, KdlValue), KdlParseError>)
    requires
        pos <= s@.len(),
    ensures
        match r {
            Ok((p, v)) => pos < p <= s@.len() && v.annotation is None && scalar_token(
                s@,
                pos as int,
                p as int,
                v.scalar,
            ) && scalar_end(s@, pos as int) == Some(p as int),
            Err(e) => parse_err_wf(e, pos as int, s@.len() as int) && e.context is Some,
        },
        r is Ok <==> scalar_end(s@, pos as int) is Some,
        overflow_number_at(s@, pos as int) ==> (r matches Err(e) && e.offset == pos && e.kind
            == Some(KdlErrorKind::ParseIntError(overflow_issue(s@, pos as int))) && e.context
            == Some(ContextLabel::Value)),
        bad_word_value_at(s@, pos as int) ==> (r matches Err(e) && e.offset == pos && e.kind
            is None && e.context == Some(ContextLabel::Value)),
{
    if pos >= s.len() {
        return Err(KdlParseError::from_grammar_mismatch(pos).add_context(ContextLabel::Value));
    }
    let c = s[pos];
    if c == '"' {
        match parse_string(s, pos) {
            Ok((p, t)) => Ok((p, KdlValue { annotation: None, scalar: KdlScalar::Str(t) })),
            Err(e) => Err(e.add_context(ContextLabel::Value)),
        }
    } else if digit_value(c) < 10 || c == '+' || c == '-' {
        match parse_number(s, pos) {
            Ok(x) => Ok(x),
            Err(e) => Err(e.add_context(ContextLabel::Value)),
        }
    } else if ident_start(c) {
        let e = scan_ident(s, pos);
        proof {
            lemma_ident_end(s@, pos + 1);
            assert(ident_end(s@, pos as int) == ident_end(s@, pos + 1));
        }
        match keyword_scalar(s, pos, e) {
            Some(k) => Ok((e, KdlValue { annotation: None, scalar: k })),
            None => Err(KdlParseError::from_grammar_mismatch(pos).add_context(ContextLabel::Value)),
        }
    } else {
        Err(KdlParseError::from_grammar_mismatch(pos).add_context(ContextLabel::Value))
    }
}

/// Parses a value: an optional `(identifier)` annotation followed by a
/// string, a number, `true`, `false` or `null`.  Succeeds exactly when a
/// well-formed value token stands at `pos`, and then returns exactly its
/// end and its value.
///
/// On failure the error is always labeled — with the innermost production
/// that was active — and a conversion cause recorded deeper down is left
/// untouched.
pub fn parse_value(s: &Vec<char>, pos: usize) -> (r: Result<(usize, KdlValue), KdlParseError>)
    requires
        pos <= s@.len(),
    ensures
        match r {
            Ok((p, v)) => pos < p <= s@.len() && value_at(s@, pos as int, p as int, v)
                && value_token_end(s@, pos as int) == Some(p as int),
            Err(e) => parse_err_wf(e, pos as int, s@.len() as int) && e.context is Some,
        },
        r is Ok <==> value_token_end(s@, pos as int) is Some,
        overflow_number_at(s@, pos as int) ==> (r matches Err(e) && e.offset == pos && e.kind
            == Some(KdlErrorKind::ParseIntError(overflow_issue(s@, pos as int))) && e.context
            == Some(ContextLabel::Value)),
        bad_word_value_at(s@, pos as int) ==> (r matches Err(e) && e.offset == pos && e.kind
            is None && e.context == Some(ContextLabel::Value)),
{
    if pos < s.len() && s[pos] == '(' {
        match parse_annotation(s, pos) {
            Err(e) => Err(e),
            Ok((p1, ann)) => match parse_value_bare(s, p1) {
                Err(e) => Err(e),
                Ok((p2, v)) => Ok((p2, KdlValue { annotation: Some(ann), scalar: v.scalar })),
            },
        }
    } else {
        parse_value_bare(s, pos)
    }
}

/// An input that from `pos` to its end is one node of the simplest
/// compound form: a bare identifier, one space, and one `name=value`
/// property filling the rest.  On such an input the node parse owes
/// success and the exact node.
pub open spec fn one_prop_input(s: Seq<char>, pos: int) -> bool {
    let e1 = ident_end(s, pos);
    let e3 = ident_end(s, e1 + 1);
    &&& 0 <= pos < s.len()
    &&& is_ident_start(s[pos])
    &&& e1 + 1 < s.len()
    &&& s[e1] == ' '
    &&& is_ident_start(s[e1 + 1])
    &&& e3 < s.len()
    &&& s[e3] == '='
    &&& value_token_end(s, e3 + 1) == Some(s.len() as int)
}

/// The node that a [`one_prop_input`] denotes: the two identifiers and
/// the property value, nothing else.
pub open spec fn one_prop_node_shape(s: Seq<char>, pos: int, n: KdlNode) -> bool {
    let e1 = ident_end(s, pos);
    let e3 = ident_end(s, e1 + 1);
    &&& n.annotation is None
    &&& n.name@ == s.subrange(pos, e1)
    &&& n.values@.len() == 0
    &&& n.children is None
    &&& n.properties@.len() == 1
    &&& n.properties@[0].name@ == s.subrange(e1 + 1, e3)
    &&& value_at(s, e3 + 1, s.len() as int, n.properties@[0].value)
}

/// An input that from `pos` to its end is one node of the simplest
/// argument form: a bare identifier, one space, and one value filling
/// the rest.  On such an input the node parse owes success and the exact
/// node.
pub open spec fn one_value_input(s: Seq<char>, pos: int) -> bool {
    let e1 = ident_end(s, pos);
    &&& 0 <= pos < s.len()
    &&& is_ident_start(s[pos])
    &&& e1 + 1 < s.len()
    &&& s[e1] == ' '
    &&& value_token_end(s, e1 + 1) == Some(s.len() as int)
}

/// The node that a [`one_value_input`] denotes: the identifier and the
/// one positional value, nothing else.
pub open spec fn one_value_node_shape(s: Seq<char>, pos: int, n: KdlNode) -> bool {
    let e1 = ident_end(s, pos);
    &&& n.annotation is None
    &&& n.name@ == s.subrange(pos, e1)
    &&& n.properties@.len() == 0
    &&& n.children is None
    &&& n.values@.len() == 1
    &&& value_at(s, e1 + 1, s.len() as int, n.values@[0])
}

/// A node that is a bare identifier alone: its scan ends at the input's
/// end or at the `}` that closes the surrounding block.
pub open spec fn lone_ident_node(s: Seq<char>, pos: int) -> bool {
    &&& 0 <= pos < s.len()
    &&& is_ident_start(s[pos])
    &&& (ident_end(s, pos) == s.len() || s[ident_end(s, pos)] == '}')
}

/// An input that from `pos` to its end is one node with a child block
/// holding one bare-identifier child: `name{child}`.
pub open spec fn child_block_input(s: Seq<char>, pos: int) -> bool {
    let e1 = ident_end(s, pos);
    &&& 0 <= pos < s.len()
    &&& is_ident_start(s[pos])
    &&& e1 < s.len()
    &&& s[e1] == '{'
    &&& lone_ident_node(s, e1 + 1)
    &&& ident_end(s, e1 + 1) + 1 == s.len()
}

/// The node that a [`child_block_input`] denotes: the identifier and one
/// empty child of the inner identifier's name.
pub open spec fn child_block_node_shape(s: Seq<char>, pos: int, n: KdlNode) -> bool {
    let e1 = ident_end(s, pos);
    let m = ident_end(s, e1 + 1);
    &&& n.annotation is None
    &&& n.name@ == s.subrange(pos, e1)
    &&& n.values@.len() == 0
    &&& n.properties@.len() == 0
    &&& (n.children matches Some(c) && c@.len() == 1 && c@[0].name@ == s.subrange(e1 + 1, m)
        && c@[0].values@.len() == 0 && c@[0].properties@.len() == 0 && c@[0].children is None)
}

/// An input that from `pos` to its end is one node with two `name=value`
/// properties: a bare identifier and the two properties, single spaces
/// between them, the second filling the rest.  The two names may
/// coincide: this is the shape on which the duplicate-key discipline
/// shows at the parser's contract.
pub open spec fn two_prop_input(s: Seq<char>, pos: int) -> bool {
    let e1 = ident_end(s, pos);
    let e3 = ident_end(s, e1 + 1);
    &&& 0 <= pos < s.len()
    &&& is_ident_start(s[pos])
    &&& e1 + 1 < s.len()
    &&& s[e1] == ' '
    &&& is_ident_start(s[e1 + 1])
    &&& e3 < s.len()
    &&& s[e3] == '='
    &&& (value_token_end(s, e3 + 1) matches Some(e4) && {
        let f3 = ident_end(s, e4 + 1);
        &&& e4 + 1 < s.len()
        &&& s[e4] == ' '
        &&& is_ident_start(s[e4 + 1])
        &&& f3 < s.len()
        &&& s[f3] == '='
        &&& value_token_end(s, f3 + 1) == Some(s.len() as int)
    })
}

/// The node that a [`two_prop_input`] denotes: when the two names
/// coincide only the later binding is left, else both are present.
pub open spec fn two_prop_node_shape(s: Seq<char>, pos: int, n: KdlNode) -> bool {
    let e1 = ident_end(s, pos);
    let e3 = ident_end(s, e1 + 1);
    let e4 = value_token_end(s, e3 + 1)->0;
    let f3 = ident_end(s, e4 + 1);
    let k1 = s.subrange(e1 + 1, e3);
    let k2 = s.subrange(e4 + 1, f3);
    let m = props_map(n.properties@);
    &&& n.annotation is None
    &&& n.name@ == s.subrange(pos, e1)
    &&& n.values@.len() == 0
    &&& n.children is None
    &&& n.properties@.len() == (if k1 == k2 {
        1int
    } else {
        2int
    })
    &&& m.contains_key(k2) && value_at(s, f3 + 1, s.len() as int, m[k2])
    &&& (k1 != k2 ==> m.contains_key(k1) && value_at(s, e3 + 1, e4, m[k1]))
}

/// An input holding a node whose first property's value is an integer
/// out of range: `name prop=<overflowing integer>`.  On this shape the
/// parse owes the exact diagnostic — the conversion cause, anchored at
/// the literal's start, never demoted to a label.
pub open spec fn overflow_prop_input(s: Seq<char>, pos: int) -> bool {
    let e1 = ident_end(s, pos);
    let e3 = ident_end(s, e1 + 1);
    &&& 0 <= pos < s.len()
    &&& is_ident_start(s[pos])
    &&& e1 + 1 < s.len()
    &&& s[e1] == ' '
    &&& is_ident_start(s[e1 + 1])
    &&& e3 < s.len()
    &&& s[e3] == '='
    &&& overflow_number_at(s, e3 + 1)
}

/// Where the first property's value starts in the `name prop=value`
/// shapes: just after their `=`.
pub open spec fn prop_value_at(s: Seq<char>, pos: int) -> int {
    ident_end(s, ident_end(s, pos) + 1) + 1
}

/// An input holding a node whose first property's value is a bare word
/// that is no value: `name prop=word`.  On this shape the parse owes the
/// exact diagnostic — the innermost label, a value was expected, at the
/// word's start.
pub open spec fn bad_word_prop_input(s: Seq<char>, pos: int) -> bool {
    let e1 = ident_end(s, pos);
    let e3 = ident_end(s, e1 + 1);
    &&& 0 <= pos < s.len()
    &&& is_ident_start(s[pos])
    &&& e1 + 1 < s.len()
    &&& s[e1] == ' '
    &&& is_ident_start(s[e1 + 1])
    &&& e3 < s.len()
    &&& s[e3] == '='
    &&& bad_word_value_at(s, e3 + 1)
}

/// Parses one node: annotation, identifier, entries (values and
/// properties in any order), an optional child block, up to — but not
/// consuming — its terminator.
#[verifier::loop_isolation(false)]
#[verifier::rlimit(100)]
pub fn parse_node(s: &Vec<char>, pos: usize) -> (r: Result<(usize, KdlNode), KdlParseError>)
    requires
        pos <= s@.len(),
    ensures
        match r {
            Ok((p, n)) => pos < p <= s@.len() && node_wf(n) && (s@[pos as int] != '(' ==> (
            n.annotation is None && n.name@ == ident_token_text(s@, pos as int))) && (s@[pos as int]
                == '(' ==> ((ann_end(s@, pos as int) matches Some(q) && n.name@ == ident_token_text(
                s@,
                q,
            )) && (n.annotation matches Some(t) && t@ == ident_token_text(s@, pos + 1)))),
            Err(e) => parse_err_wf(e, pos as int, s@.len() as int),
        },
        lone_ident_node(s@, pos as int) ==> (r matches Ok(x) && x.0 == ident_end(s@, pos as int)
            && x.1.values@.len() == 0 && x.1.properties@.len() == 0 && x.1.children is None),
        child_block_input(s@, pos as int) ==> (r matches Ok(x) && x.0 == s@.len()
            && child_block_node_shape(s@, pos as int, x.1)),
        one_prop_input(s@, pos as int) ==> (r matches Ok(x) && x.0 == s@.len()
            && one_prop_node_shape(s@, pos as int, x.1)),
        one_value_input(s@, pos as int) ==> (r matches Ok(x) && x.0 == s@.len()
            && one_value_node_shape(s@, pos as int, x.1)),
        two_prop_input(s@, pos as int) ==> (r matches Ok(x) && x.0 == s@.len()
            && two_prop_node_shape(s@, pos as int, x.1)),
        overflow_prop_input(s@, pos as int) ==> (r matches Err(e) && e.offset == prop_value_at(
            s@,
            pos as int,
        ) && e.kind == Some(
            KdlErrorKind::ParseIntError(overflow_issue(s@, prop_value_at(s@, pos as int))),
        ) && e.context == Some(ContextLabel::Value)),
        bad_word_prop_input(s@, pos as int) ==> (r matches Err(e) && e.offset == prop_value_at(
            s@,
            pos as int,
        ) && e.kind is None && e.context == Some(ContextLabel::Value)),
    decreases s@.len() - pos, 0int,
{
    let (p0, ann) = if pos < s.len() && s[pos] == '(' {
        match parse_annotation(s, pos) {
            Err(e) => {
                return Err(e);
            },
            Ok((p, a)) => (p, Some(a)),
        }
    } else {
        (pos, None)
    };
    let (first, name) = match parse_identifier(s, p0) {
        Err(e) => {
            return Err(e.add_context(ContextLabel::NodeIdentifier));
        },
        Ok(x) => x,
    };
    let mut node = KdlNode::new(ann, name);
    let mut p = first;
    loop
        invariant
            pos < p <= s@.len(),
            first <= p,
            props_wf(node.properties@),
            node.children is None,
            node.annotation == ann,
            node.name == name,
            one_prop_input(s@, pos as int) ==> ((p == first && node.values@.len() == 0
                && node.properties@.len() == 0) || (p == s@.len() && node.values@.len() == 0
                && node.properties@.len() == 1 && node.properties@[0].name@ == s@.subrange(
                ident_end(s@, pos as int) + 1,
                ident_end(s@, ident_end(s@, pos as int) + 1),
            ) && value_at(
                s@,
                ident_end(s@, ident_end(s@, pos as int) + 1) + 1,
                s@.len() as int,
                node.properties@[0].value,
            ))),
            one_value_input(s@, pos as int) ==> ((p == first && node.values@.len() == 0
                && node.properties@.len() == 0) || (p == s@.len() && node.properties@.len() == 0
                && node.values@.len() == 1 && value_at(
                s@,
                ident_end(s@, pos as int) + 1,
                s@.len() as int,
                node.values@[0],
            ))),
            two_prop_input(s@, pos as int) ==> ({
                let e1 = ident_end(s@, pos as int);
                let e3 = ident_end(s@, e1 + 1);
                let e4 = value_token_end(s@, e3 + 1)->0;
                let f3 = ident_end(s@, e4 + 1);
                let k1 = s@.subrange(e1 + 1, e3);
                let k2 = s@.subrange(e4 + 1, f3);
                let m = props_map(node.properties@);
                ||| (p == first && node.values@.len() == 0 && node.properties@.len() == 0)
                ||| (p == e4 && node.values@.len() == 0 && node.properties@.len() == 1
                    && node.properties@[0].name@ == k1 && value_at(
                    s@,
                    e3 + 1,
                    e4,
                    node.properties@[0].value,
                ))
                ||| (p == s@.len() && node.values@.len() == 0 && node.properties@.len() == (
                if k1 == k2 {
                    1int
                } else {
                    2int
                }) && m.contains_key(k2) && value_at(s@, f3 + 1, s@.len() as int, m[k2]) && (k1
                    != k2 ==> m.contains_key(k1) && value_at(s@, e3 + 1, e4, m[k1])))
            }),
            lone_ident_node(s@, pos as int) ==> (p == first && node.values@.len() == 0
                && node.properties@.len() == 0),
            child_block_input(s@, pos as int) ==> (p == first && node.values@.len() == 0
                && node.properties@.len() == 0),
            overflow_prop_input(s@, pos as int) ==> p == first,
            bad_word_prop_input(s@, pos as int) ==> p == first,
        decreases s@.len() - p,
    {
        let q = skip_inline_ws(s, p);
        proof {
            if one_prop_input(s@, pos as int) && p == first {
                assert(plain_inline_run(s@, p as int, p + 1));
            }
            if (overflow_prop_input(s@, pos as int) || bad_word_prop_input(s@, pos as int)) && p
                == first {
                assert(plain_inline_run(s@, p as int, p + 1));
            }
            if one_value_input(s@, pos as int) && p == first {
                assert(plain_inline_run(s@, p as int, p + 1));
            }
            if two_prop_input(s@, pos as int) && (p as int) < s@.len() {
                assert(plain_inline_run(s@, p as int, p + 1));
            }
            if lone_ident_node(s@, pos as int) || child_block_input(s@, pos as int) {
                assert(plain_inline_run(s@, p as int, p as int));
            }
        }
        if q >= s.len() {
            p = q;
            break ;
        }
        let c = s[q];
        if c == ';' || newline(c) || c == '}' {
            p = q;
            break ;
        }
        if c == '/' && q + 1 < s.len() && s[q + 1] == '/' {
            p = q;
            break ;
        }
        if c == '{' {
            match parse_nodes(s, q + 1) {
                Err(e) => {
                    return Err(e);
                },
                Ok((p2, kids)) => {
                    if p2 < s.len() {
                        node.children = Some(kids);
                        return Ok((p2 + 1, node));
                    } else {
                        return Err(
                            KdlParseError::from_grammar_mismatch(p2).add_context(
                                ContextLabel::ChildrenClose,
                            ),
                        );
                    }
                },
            }
        } else if c == '"' || ident_start(c) {
            let (p1, word) = if c == '"' {
                match parse_string(s, q) {
                    Err(e) => {
                        return Err(e.add_context(ContextLabel::NodeEntry));
                    },
                    Ok(x) => x,
                }
            } else {
                proof {
                    lemma_ident_end(s@, q + 1);
                    assert(ident_end(s@, q as int) == ident_end(s@, q + 1));
                }
                let e = scan_ident(s, q);
                let w = string_of_range(s, q, e);
                (e, w)
            };
            if p1 < s.len() && s[p1] == '=' {
                match parse_value(s, p1 + 1) {
                    Err(e) => {
                        return Err(e.add_context(ContextLabel::PropertyValue));
                    },
                    Ok((p2, v)) => {
                        proof {
                            if one_prop_input(s@, pos as int) {
                                assert(node.properties@ =~= Seq::<KdlProperty>::empty());
                            }
                            if two_prop_input(s@, pos as int) {
                                if p == first {
                                    assert(node.properties@ =~= Seq::<KdlProperty>::empty());
                                } else {
                                    let e1 = ident_end(s@, pos as int);
                                    let e3 = ident_end(s@, e1 + 1);
                                    let e4 = value_token_end(s@, e3 + 1)->0;
                                    let f3 = ident_end(s@, e4 + 1);
                                    let k1 = s@.subrange(e1 + 1, e3);
                                    let k2 = s@.subrange(e4 + 1, f3);
                                    assert(node.properties@.drop_last() =~= Seq::<
                                        KdlProperty,
                                    >::empty());
                                    assert(word@ == k2);
                                    assert(node.properties@.last() == node.properties@[0]);
                                    assert(props_map(node.properties@.drop_last()) =~= Map::<
                                        Seq<char>,
                                        KdlValue,
                                    >::empty());
                                    assert(props_map(node.properties@) == Map::<
                                        Seq<char>,
                                        KdlValue,
                                    >::empty().insert(k1, node.properties@[0].value));
                                    if k1 != k2 {
                                        assert(!props_map(node.properties@).contains_key(k2));
                                    }
                                }
                            }
                        }
                        node.set_property(word, v);
                        proof {
                            if two_prop_input(s@, pos as int) {
                                let e1 = ident_end(s@, pos as int);
                                let e3 = ident_end(s@, e1 + 1);
                                let e4 = value_token_end(s@, e3 + 1)->0;
                                let f3 = ident_end(s@, e4 + 1);
                                let k1 = s@.subrange(e1 + 1, e3);
                                let k2 = s@.subrange(e4 + 1, f3);
                                let m = props_map(node.properties@);
                                if p == first {
                                    assert(p2 == e4);
                                    assert(node.properties@.len() == 1);
                                    assert(node.properties@[0].name@ == k1);
                                    assert(value_at(s@, e3 + 1, e4, node.properties@[0].value));
                                } else {
                                    assert(p2 == s@.len());
                                    assert(m.contains_key(k2) && m[k2] == v);
                                    assert(value_at(s@, f3 + 1, s@.len() as int, m[k2]));
                                    if k1 != k2 {
                                        assert(node.properties@.len() == 2);
                                        assert(m.contains_key(k1));
                                        assert(value_at(s@, e3 + 1, e4, m[k1]));
                                    } else {
                                        assert(node.properties@.len() == 1);
                                    }
                                }
                            }
                        }
                        p = p2;
                    },
                }
            } else if c == '"' {
                node.values.push(KdlValue { annotation: None, scalar: KdlScalar::Str(word) });
                p = p1;
            } else {
                match keyword_scalar(s, q, p1) {
                    Some(k) => {
                        node.values.push(KdlValue { annotation: None, scalar: k });
                        p = p1;
                    },
                    None => {
                        return Err(
                            KdlParseError::from_grammar_mismatch(q).add_context(
                                ContextLabel::NodeEntry,
                            ),
                        );
                    },
                }
            }
        } else if digit_value(c) < 10 || c == '+' || c == '-' || c == '(' {
            match parse_value(s, q) {
                Err(e) => {
                    return Err(e);
                },
                Ok((p2, v)) => {
                    node.values.push(v);
                    p = p2;
                },
            }
        } else {
            return Err(
                KdlParseError::from_grammar_mismatch(q).add_context(ContextLabel::NodeEntry),
            );
        }
    }
    Ok((p, node))
}

/// An input on which a run of nodes owes success: from `pos` to the end
/// it is one bare identifier.
pub open spec fn bare_node_owed(s: Seq<char>, pos: int) -> bool {
    &&& 0 <= pos < s.len()
    &&& is_ident_start(s[pos])
    &&& ident_end(s, pos) == s.len()
}

/// Parses a run of nodes up to the end of the input or an unconsumed `}`,
/// skipping whitespace, comments and stray `;` separators between them.
#[verifier::loop_isolation(false)]
pub fn parse_nodes(s: &Vec<char>, pos: usize) -> (r: Result<(usize, Vec<KdlNode>), KdlParseError>)
    requires
        pos <= s@.len(),
    ensures
        match r {
            Ok((p, ns)) => pos <= p <= s@.len() && (p < s@.len() ==> s@[p as int] == '}') && (
            forall|i: int| 0 <= i < ns@.len() ==> node_wf(#[trigger] ns@[i])) && (pos == s@.len()
                ==> ns@.len() == 0),
            Err(e) => parse_err_wf(e, pos as int, s@.len() as int),
        },
        pos == s@.len() ==> r is Ok,
        bare_node_owed(s@, pos as int) ==> (r matches Ok(x) && x.0 == s@.len() && x.1@.len() == 1
            && x.1@[0].name@ == s@.subrange(pos as int, s@.len() as int)),
        one_prop_input(s@, pos as int) ==> (r matches Ok(x) && x.0 == s@.len() && x.1@.len() == 1
            && one_prop_node_shape(s@, pos as int, x.1@[0])),
        one_value_input(s@, pos as int) ==> (r matches Ok(x) && x.0 == s@.len() && x.1@.len() == 1
            && one_value_node_shape(s@, pos as int, x.1@[0])),
        two_prop_input(s@, pos as int) ==> (r matches Ok(x) && x.0 == s@.len() && x.1@.len() == 1
            && two_prop_node_shape(s@, pos as int, x.1@[0])),
        lone_ident_node(s@, pos as int) ==> (r matches Ok(x) && x.0 == ident_end(s@, pos as int)
            && x.1@.len() == 1 && x.1@[0].name@ == s@.subrange(pos as int, ident_end(s@, pos as int))
            && x.1@[0].values@.len() == 0 && x.1@[0].properties@.len() == 0 && x.1@[0].children
            is None),
        child_block_input(s@, pos as int) ==> (r matches Ok(x) && x.0 == s@.len() && x.1@.len()
            == 1 && child_block_node_shape(s@, pos as int, x.1@[0])),
        overflow_prop_input(s@, pos as int) ==> (r matches Err(e) && e.offset == prop_value_at(
            s@,
            pos as int,
        ) && e.kind == Some(
            KdlErrorKind::ParseIntError(overflow_issue(s@, prop_value_at(s@, pos as int))),
        ) && e.context == Some(ContextLabel::Value)),
        bad_word_prop_input(s@, pos as int) ==> (r matches Err(e) && e.offset == prop_value_at(
            s@,
            pos as int,
        ) && e.kind is None && e.context == Some(ContextLabel::Value)),
    decreases s@.len() - pos, 1int,
{
    let mut out: Vec<KdlNode> = Vec::new();
    let mut p = pos;
    loop
        invariant
            pos <= p <= s@.len(),
            forall|i: int| 0 <= i < out@.len() ==> node_wf(#[trigger] out@[i]),
            pos == s@.len() ==> out@.len() == 0,
            bare_node_owed(s@, pos as int) ==> ((p == pos && out@.len() == 0) || (p == s@.len()
                && out@.len() == 1 && out@[0].name@ == s@.subrange(pos as int, s@.len() as int))),
            one_prop_input(s@, pos as int) ==> ((p == pos && out@.len() == 0) || (p == s@.len()
                && out@.len() == 1 && one_prop_node_shape(s@, pos as int, out@[0]))),
            one_value_input(s@, pos as int) ==> ((p == pos && out@.len() == 0) || (p == s@.len()
                && out@.len() == 1 && one_value_node_shape(s@, pos as int, out@[0]))),
            two_prop_input(s@, pos as int) ==> ((p == pos && out@.len() == 0) || (p == s@.len()
                && out@.len() == 1 && two_prop_node_shape(s@, pos as int, out@[0]))),
            lone_ident_node(s@, pos as int) ==> ((p == pos && out@.len() == 0) || (p == ident_end(
                s@,
                pos as int,
            ) && out@.len() == 1 && out@[0].name@ == s@.subrange(pos as int, ident_end(s@, pos as int))
                && out@[0].values@.len() == 0 && out@[0].properties@.len() == 0 && out@[0].children
                is None)),
            child_block_input(s@, pos as int) ==> ((p == pos && out@.len() == 0) || (p == s@.len()
                && out@.len() == 1 && child_block_node_shape(s@, pos as int, out@[0]))),
            overflow_prop_input(s@, pos as int) ==> p == pos,
            bad_word_prop_input(s@, pos as int) ==> p == pos,
        decreases s@.len() - p,
    {
        let q = skip_linespace(s, p);
        proof {
            let owed = bare_node_owed(s@, pos as int) || one_prop_input(s@, pos as int)
                || one_value_input(s@, pos as int) || two_prop_input(s@, pos as int)
                || child_block_input(s@, pos as int) || overflow_prop_input(s@, pos as int)
                || bad_word_prop_input(s@, pos as int);
            if owed && p == pos {
                assert(plain_linespace_run(s@, p as int, p as int));
            }
            if owed && p == s@.len() {
                assert(plain_linespace_run(s@, p as int, p as int));
            }
            if lone_ident_node(s@, pos as int) {
                assert(plain_linespace_run(s@, p as int, p as int));
            }
        }
        if q >= s.len() {
            return Ok((q, out));
        }
        if s[q] == '}' {
            return Ok((q, out));
        }
        if s[q] == ';' {
            p = q + 1;
        } else {
            match parse_node(s, q) {
                Err(e) => {
                    return Err(e);
                },
                Ok((p2, n)) => {
                    out.push(n);
                    p = p2;
                },
            }
        }
    }
}

/// Parses a complete text into a document.
///
/// The empty input is a valid, empty document.  On failure the diagnostic
/// carries the full original input, the character offset of the failure
/// site, and the most specific cause that was recorded: a conversion
/// failure outranks any context label, and the innermost label outranks
/// the enclosing ones.
pub fn parse_document(input: &str) -> (r: Result<KdlDocument, KdlError>)
    ensures
        match r {
            Ok(d) => document_wf(d) && (input@.len() == 0 ==> d.nodes@.len() == 0),
            Err(ke) => ke.input@ == input@ && ke.offset <= input@.len(),
        },
        input@.len() == 0 ==> r is Ok,
        bare_node_owed(input@, 0) ==> (r matches Ok(d) && d.nodes@.len() == 1 && d.nodes@[0].name@
            == input@),
        one_prop_input(input@, 0) ==> (r matches Ok(d) && d.nodes@.len() == 1
            && one_prop_node_shape(input@, 0, d.nodes@[0])),
        one_value_input(input@, 0) ==> (r matches Ok(d) && d.nodes@.len() == 1
            && one_value_node_shape(input@, 0, d.nodes@[0])),
        two_prop_input(input@, 0) ==> (r matches Ok(d) && d.nodes@.len() == 1
            && two_prop_node_shape(input@, 0, d.nodes@[0])),
        child_block_input(input@, 0) ==> (r matches Ok(d) && d.nodes@.len() == 1
            && child_block_node_shape(input@, 0, d.nodes@[0])),
        overflow_prop_input(input@, 0) ==> (r matches Err(ke) && ke.offset == prop_value_at(
            input@,
            0,
        ) && ke.kind == KdlErrorKind::ParseIntError(
            overflow_issue(input@, prop_value_at(input@, 0)),
        )),
        bad_word_prop_input(input@, 0) ==> (r matches Err(ke) && ke.offset == prop_value_at(
            input@,
            0,
        ) && ke.kind == KdlErrorKind::Context(ContextLabel::Value)),
{
    let v = chars_vec(input);
    proof {
        assert(v@.subrange(0, v@.len() as int) =~= input@);
    }
    match parse_nodes(&v, 0) {
        Err(e) => Err(e.finalize(input)),
        Ok((p, ns)) => {
            if p < v.len() {
                Err(
                    KdlParseError::from_grammar_mismatch(p).add_context(
                        ContextLabel::EndOfInput,
                    ).finalize(input),
                )
            } else {
                Ok(KdlDocument { nodes: ns })
            }
        },
    }
}

} // verus!
