//! Character classes, digit arithmetic and the small text-building helpers
//! the parser and the renderer share.  The parser works over a vector of
//! chars, so offsets are character offsets into the original text.

use vstd::prelude::*;
use vstd::string::StrSliceExecFns;

verus! {

/// Whitespace that may separate tokens inside one node: space and tab.
pub open spec fn is_inline_ws(c: char) -> bool {
    c == ' ' || c == '\t'
}

/// A newline character; a newline terminates a node and a line comment.
pub open spec fn is_newline(c: char) -> bool {
    c == '\n' || c == '\r'
}

/// First character of a bare identifier: an ASCII letter or `_`.
pub open spec fn is_ident_start(c: char) -> bool {
    (65 <= c as u32 && c as u32 <= 90) || (97 <= c as u32 && c as u32 <= 122) || c == '_'
}

/// Later character of a bare identifier: a letter, digit, `_` or `-`.
pub open spec fn is_ident_char(c: char) -> bool {
    is_ident_start(c) || (48 <= c as u32 && c as u32 <= 57) || c == '-'
}

/// The value of `c` as a digit, or 99 when `c` is no digit at all.  Both
/// cases of a hex letter count.
pub open spec fn digit_val(c: char) -> int {
    if 48 <= c as u32 && c as u32 <= 57 {
        c as u32 - 48
    } else if 97 <= c as u32 && c as u32 <= 102 {
        c as u32 - 97 + 10
    } else if 65 <= c as u32 && c as u32 <= 70 {
        c as u32 - 65 + 10
    } else {
        99
    }
}

/// Exec mirror of [`is_inline_ws`].
pub fn inline_ws(c: char) -> (r: bool)
    ensures
        r == is_inline_ws(c),
{
    c == ' ' || c == '\t'
}

/// Exec mirror of [`is_newline`].
pub fn newline(c: char) -> (r: bool)
    ensures
        r == is_newline(c),
{
    c == '\n' || c == '\r'
}

/// Exec mirror of [`is_ident_start`].
pub fn ident_start(c: char) -> (r: bool)
    ensures
        r == is_ident_start(c),
{
    let u = c as u32;
    (65 <= u && u <= 90) || (97 <= u && u <= 122) || c == '_'
}

/// Exec mirror of [`is_ident_char`].
pub fn ident_char(c: char) -> (r: bool)
    ensures
        r == is_ident_char(c),
{
    let u = c as u32;
    ident_start(c) || (48 <= u && u <= 57) || c == '-'
}

/// Exec mirror of [`digit_val`].
pub fn digit_value(c: char) -> (r: u32)
    ensures
        r == digit_val(c),
{
    let u = c as u32;
    if 48 <= u && u <= 57 {
        u - 48
    } else if 97 <= u && u <= 102 {
        u - 97 + 10
    } else if 65 <= u && u <= 70 {
        u - 65 + 10
    } else {
        99
    }
}

/// The integer a digit sequence denotes in the given radix, most
/// significant digit first.
pub open spec fn int_of_digits(s: Seq<char>, radix: int) -> int
    decreases s.len(),
{
    if s.len() == 0 {
        0
    } else {
        int_of_digits(s.drop_last(), radix) * radix + digit_val(s.last())
    }
}

/// Appending digits never lowers the denoted value.
pub proof fn lemma_int_of_digits_grows(s: Seq<char>, radix: int, bound: int)
    requires
        radix >= 2,
        s.len() > 0,
        int_of_digits(s.drop_last(), radix) > bound,
        bound >= 0,
    ensures
        int_of_digits(s, radix) > bound,
{
    let v = int_of_digits(s.drop_last(), radix);
    assert(v * radix >= v + v) by (nonlinear_arith)
        requires
            v >= 0,
            radix >= 2,
    ;
}

/// Where the run of digits of `radix` that starts at `pos` ends.
pub open spec fn digits_end(s: Seq<char>, pos: int, radix: int) -> int
    decreases s.len() - pos,
{
    if 0 <= pos && pos < s.len() && digit_val(s[pos]) < radix {
        digits_end(s, pos + 1, radix)
    } else {
        pos
    }
}

/// The digit run is a run: bounded, made of digits, and maximal.
pub proof fn lemma_digits_end(s: Seq<char>, pos: int, radix: int)
    requires
        0 <= pos <= s.len(),
    ensures
        pos <= digits_end(s, pos, radix) <= s.len(),
        forall|k: int|
            pos <= k < digits_end(s, pos, radix) ==> digit_val(#[trigger] s[k]) < radix,
        digits_end(s, pos, radix) < s.len() ==> digit_val(s[digits_end(s, pos, radix)]) >= radix,
    decreases s.len() - pos,
{
    if pos < s.len() && digit_val(s[pos]) < radix {
        lemma_digits_end(s, pos + 1, radix);
    }
}

/// Finds the end of the digit run of `radix` starting at `pos`.
pub fn scan_digits(s: &Vec<char>, pos: usize, radix: u32) -> (r: usize)
    requires
        pos <= s@.len(),
    ensures
        r == digits_end(s@, pos as int, radix as int),
        pos <= r <= s@.len(),
    {
    let mut i = pos;
    while i < s.len() && digit_value(s[i]) < radix
        invariant
            pos <= i <= s@.len(),
            digits_end(s@, pos as int, radix as int) == digits_end(s@, i as int, radix as int),
        decreases s@.len() - i,
    {
        i += 1;
    }
    proof {
        lemma_digits_end(s@, i as int, radix as int);
    }
    i
}

/// Converts the digit run `s[pos..end]` in the given radix, against the
/// inclusive magnitude `limit`: either the exact value, or the fact that
/// the value is above the limit.
pub fn digits_to_u64(s: &Vec<char>, pos: usize, end: usize, radix: u32, limit: u64) -> (r: Option<
    u64,
>)
    requires
        pos <= end <= s@.len(),
        2 <= radix <= 16,
        forall|k: int| pos <= k < end ==> digit_val(#[trigger] s@[k]) < radix,
    ensures
        match r {
            Some(v) => v == int_of_digits(s@.subrange(pos as int, end as int), radix as int)
                && v <= limit,
            None => int_of_digits(s@.subrange(pos as int, end as int), radix as int) > limit,
        },
{
    let mut acc: u64 = 0;
    let mut over = false;
    let mut i = pos;
    proof {
        assert(s@.subrange(pos as int, pos as int) =~= Seq::<char>::empty());
    }
    while i < end
        invariant
            pos <= i <= end <= s@.len(),
            2 <= radix <= 16,
            forall|k: int| pos <= k < end ==> digit_val(#[trigger] s@[k]) < radix,
            !over ==> acc == int_of_digits(s@.subrange(pos as int, i as int), radix as int)
                && acc <= limit,
            over ==> int_of_digits(s@.subrange(pos as int, i as int), radix as int) > limit,
        decreases end - i,
    {
        let ghost prefix = s@.subrange(pos as int, i as int);
        let ghost grown = s@.subrange(pos as int, i as int + 1);
        proof {
            assert(grown.drop_last() =~= prefix);
            assert(grown.last() == s@[i as int]);
        }
        let d = digit_value(s[i]);
        if over {
            proof {
                lemma_int_of_digits_grows(grown, radix as int, limit as int);
            }
        } else {
            let stepped = match acc.checked_mul(radix as u64) {
                Some(m) => m.checked_add(d as u64),
                None => None,
            };
            match stepped {
                Some(v) if v <= limit => {
                    acc = v;
                },
                _ => {
                    over = true;
                    proof {
                        let a = acc as int;
                        let v = int_of_digits(grown, radix as int);
                        assert(v == a * (radix as int) + digit_val(s@[i as int]));
                        if a * (radix as int) > u64::MAX as int {
                            assert(v > limit);
                        }
                    }
                },
            }
        }
        i += 1;
    }
    if over {
        None
    } else {
        Some(acc)
    }
}

/// Relies on `String::push`: it appends exactly the one character to the
/// string.
#[verifier::external_body]
pub fn push_char(s: &mut String, c: char)
    ensures
        final(s)@ == old(s)@.push(c),
{
    s.push(c);
}

/// Copies the characters of a text into a vector, so that the parser can
/// address them by offset.
pub fn chars_vec(s: &str) -> (r: Vec<char>)
    ensures
        r@ == s@,
{
    let n = s.unicode_len();
    let mut r: Vec<char> = Vec::new();
    let mut i: usize = 0;
    while i < n
        invariant
            i <= n,
            n == s@.len(),
            r@ == s@.subrange(0, i as int),
        decreases n - i,
    {
        let c = s.get_char(i);
        r.push(c);
        proof {
            assert(s@.subrange(0, i as int + 1) =~= s@.subrange(0, i as int).push(c));
        }
        i += 1;
    }
    proof {
        assert(s@.subrange(0, n as int) =~= s@);
    }
    r
}

/// Builds the string holding `s[from..to]`.
pub fn string_of_range(s: &Vec<char>, from: usize, to: usize) -> (r: String)
    requires
        from <= to <= s@.len(),
    ensures
        r@ == s@.subrange(from as int, to as int),
{
    let mut r = String::new();
    let mut i = from;
    proof {
        assert(s@.subrange(from as int, from as int) =~= Seq::<char>::empty());
    }
    while i < to
        invariant
            from <= i <= to <= s@.len(),
            r@ == s@.subrange(from as int, i as int),
        decreases to - i,
    {
        push_char(&mut r, s[i]);
        proof {
            assert(s@.subrange(from as int, i as int + 1) =~= s@.subrange(
                from as int,
                i as int,
            ).push(s@[i as int]));
        }
        i += 1;
    }
    r
}

} // verus!
