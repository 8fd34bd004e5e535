//! Rendering a document tree back to text.
//!
//! The renderer writes one canonical form: identifiers stay bare when the
//! identifier grammar allows it and are quoted otherwise, entries are
//! separated by single spaces, every node ends with `;`, and child blocks
//! are braced.  What each function produces is pinned, character for
//! character, by the spec functions beside it.

use vstd::prelude::*;

use crate::chars::digit_val;
use crate::chars::ident_char;
use crate::chars::ident_start;
use crate::chars::is_ident_char;
use crate::chars::is_ident_start;
use crate::chars::push_char;
use crate::parser::esc_char;
use crate::parser::ident_end;
use crate::parser::is_escape;
use crate::parser::is_kw_false;
use crate::parser::is_kw_null;
use crate::parser::is_kw_true;
use crate::parser::string_content;
use crate::parser::string_end;
use crate::value::KdlDocument;
use crate::value::KdlNode;
use crate::value::KdlProperty;
use crate::value::KdlScalar;
use crate::value::KdlValue;
use vstd::string::StrSliceExecFns;
use vstd::string::StringExecFns;

verus! {

/// The digit character of a value below ten.
pub open spec fn digit_char(d: int) -> char {
    if d == 0 {
        '0'
    } else if d == 1 {
        '1'
    } else if d == 2 {
        '2'
    } else if d == 3 {
        '3'
    } else if d == 4 {
        '4'
    } else if d == 5 {
        '5'
    } else if d == 6 {
        '6'
    } else if d == 7 {
        '7'
    } else if d == 8 {
        '8'
    } else {
        '9'
    }
}

/// The decimal digits of a value of at least zero.
pub open spec fn dec_str(n: int) -> Seq<char>
    decreases n,
{
    if n < 10 {
        seq![digit_char(n)]
    } else {
        dec_str(n / 10).push(digit_char(n % 10))
    }
}

/// The decimal rendering of an integer, sign included.
pub open spec fn int_str(n: int) -> Seq<char> {
    if n < 0 {
        seq!['-'] + dec_str(-n)
    } else {
        dec_str(n)
    }
}

/// How one character is written inside a quoted string.
pub open spec fn esc_of(c: char) -> Seq<char> {
    if c == '"' {
        seq!['\\', '"']
    } else if c == '\\' {
        seq!['\\', '\\']
    } else if c == '\n' {
        seq!['\\', 'n']
    } else if c == '\r' {
        seq!['\\', 'r']
    } else if c == '\t' {
        seq!['\\', 't']
    } else {
        seq![c]
    }
}

/// The body of a quoted string: every character escaped as needed.
pub open spec fn str_body(t: Seq<char>) -> Seq<char>
    decreases t.len(),
{
    if t.len() == 0 {
        Seq::empty()
    } else {
        str_body(t.drop_last()) + esc_of(t.last())
    }
}

/// A quoted string literal denoting exactly `t`.
pub open spec fn quoted(t: Seq<char>) -> Seq<char> {
    seq!['"'] + str_body(t) + seq!['"']
}

/// Whether an identifier may be written bare: shaped like a bare word and
/// not spelled like a keyword literal.
pub open spec fn bare_ok(t: Seq<char>) -> bool {
    &&& t.len() > 0
    &&& is_ident_start(t[0])
    &&& forall|i: int| 0 <= i < t.len() ==> is_ident_char(#[trigger] t[i])
    &&& !is_kw_true(t, 0, t.len() as int)
    &&& !is_kw_false(t, 0, t.len() as int)
    &&& !is_kw_null(t, 0, t.len() as int)
}

/// The rendering of an identifier: bare where possible, quoted otherwise.
pub open spec fn ident_str(t: Seq<char>) -> Seq<char> {
    if bare_ok(t) {
        t
    } else {
        quoted(t)
    }
}

/// The rendering of a scalar.
pub open spec fn scalar_str(v: KdlScalar) -> Seq<char> {
    match v {
        KdlScalar::Str(t) => quoted(t@),
        KdlScalar::Int(n) => int_str(n as int),
        KdlScalar::Float(t) => t@,
        KdlScalar::Bool(b) => if b {
            seq!['t', 'r', 'u', 'e']
        } else {
            seq!['f', 'a', 'l', 's', 'e']
        },
        KdlScalar::Null => seq!['n', 'u', 'l', 'l'],
    }
}

/// The rendering of a value, annotation included.
pub open spec fn value_str(v: KdlValue) -> Seq<char> {
    match v.annotation {
        Some(a) => seq!['('] + ident_str(a@) + seq![')'] + scalar_str(v.scalar),
        None => scalar_str(v.scalar),
    }
}

/// The rendering of the positional values of a node, each preceded by one
/// space.
pub open spec fn values_str(vs: Seq<KdlValue>) -> Seq<char>
    decreases vs.len(),
{
    if vs.len() == 0 {
        Seq::empty()
    } else {
        values_str(vs.drop_last()) + seq![' '] + value_str(vs.last())
    }
}

/// The rendering of the properties of a node, each preceded by one space.
pub open spec fn props_str(ps: Seq<KdlProperty>) -> Seq<char>
    decreases ps.len(),
{
    if ps.len() == 0 {
        Seq::empty()
    } else {
        props_str(ps.drop_last()) + seq![' '] + ident_str(ps.last().name@) + seq!['=']
            + value_str(ps.last().value)
    }
}

/// The rendering of one node, terminator included.
pub open spec fn node_str(n: KdlNode) -> Seq<char>
    decreases n,
{
    (match n.annotation {
        Some(a) => seq!['('] + ident_str(a@) + seq![')'],
        None => Seq::empty(),
    }) + ident_str(n.name@) + values_str(n.values@) + props_str(n.properties@) + (match n.children {
        Some(c) => seq![' ', '{'] + nodes_str(c@) + seq!['}'],
        None => Seq::empty(),
    }) + seq![';']
}

/// The rendering of a run of nodes.
pub open spec fn nodes_str(ns: Seq<KdlNode>) -> Seq<char>
    decreases ns,
{
    if ns.len() == 0 {
        Seq::empty()
    } else {
        nodes_str(ns.drop_last()) + node_str(ns.last())
    }
}

/// The rendering of a whole document.
pub open spec fn document_str(d: KdlDocument) -> Seq<char> {
    nodes_str(d.nodes@)
}

/// Exec mirror of [`digit_char`].
fn digit_char_of(d: u64) -> (r: char)
    requires
        d < 10,
    ensures
        r == digit_char(d as int),
{
    if d == 0 {
        '0'
    } else if d == 1 {
        '1'
    } else if d == 2 {
        '2'
    } else if d == 3 {
        '3'
    } else if d == 4 {
        '4'
    } else if d == 5 {
        '5'
    } else if d == 6 {
        '6'
    } else if d == 7 {
        '7'
    } else if d == 8 {
        '8'
    } else {
        '9'
    }
}

/// Appends the decimal digits of `n`.
fn push_dec(out: &mut String, n: u64)
    ensures
        final(out)@ == old(out)@ + dec_str(n as int),
    decreases n,
{
    if n < 10 {
        push_char(out, digit_char_of(n));
        proof {
            assert(old(out)@ + dec_str(n as int) =~= old(out)@.push(digit_char(n as int)));
        }
    } else {
        push_dec(out, n / 10);
        push_char(out, digit_char_of(n % 10));
        proof {
            assert(old(out)@ + dec_str(n as int) =~= (old(out)@ + dec_str(n as int / 10)).push(
                digit_char(n as int % 10),
            ));
        }
    }
}

/// Appends the decimal rendering of `n`, sign included.
fn push_int(out: &mut String, n: i64)
    ensures
        final(out)@ == old(out)@ + int_str(n as int),
{
    if n < 0 {
        push_char(out, '-');
        let mag: u64 = if n == i64::MIN {
            9223372036854775808
        } else {
            (-n) as u64
        };
        push_dec(out, mag);
        proof {
            assert(old(out)@ + int_str(n as int) =~= old(out)@.push('-') + dec_str(mag as int));
        }
    } else {
        push_dec(out, n as u64);
    }
}

/// Appends the quoted form of `t`.
fn push_quoted(out: &mut String, t: &String)
    ensures
        final(out)@ == old(out)@ + quoted(t@),
{
    push_char(out, '"');
    let n = t.as_str().unicode_len();
    let mut i: usize = 0;
    proof {
        assert(t@.subrange(0, 0) =~= Seq::<char>::empty());
    }
    while i < n
        invariant
            i <= n,
            n == t@.len(),
            out@ == old(out)@.push('"') + str_body(t@.subrange(0, i as int)),
        decreases n - i,
    {
        let c = t.as_str().get_char(i);
        let ghost pre = t@.subrange(0, i as int);
        let ghost cur = t@.subrange(0, i as int + 1);
        proof {
            assert(cur.drop_last() =~= pre);
            assert(cur.last() == t@[i as int]);
        }
        if c == '"' {
            push_char(out, '\\');
            push_char(out, '"');
        } else if c == '\\' {
            push_char(out, '\\');
            push_char(out, '\\');
        } else if c == '\n' {
            push_char(out, '\\');
            push_char(out, 'n');
        } else if c == '\r' {
            push_char(out, '\\');
            push_char(out, 'r');
        } else if c == '\t' {
            push_char(out, '\\');
            push_char(out, 't');
        } else {
            push_char(out, c);
        }
        proof {
            assert(out@ =~= old(out)@.push('"') + str_body(cur));
        }
        i += 1;
    }
    proof {
        assert(t@.subrange(0, n as int) =~= t@);
    }
    push_char(out, '"');
    proof {
        assert(out@ =~= old(out)@ + quoted(t@));
    }
}

/// Whether `t` may be written as a bare identifier.
fn bare_allowed(t: &String) -> (r: bool)
    ensures
        r == bare_ok(t@),
{
    let n = t.as_str().unicode_len();
    if n == 0 {
        return false;
    }
    if !ident_start(t.as_str().get_char(0)) {
        return false;
    }
    let mut i: usize = 0;
    while i < n
        invariant
            i <= n,
            n == t@.len(),
            forall|k: int| 0 <= k < i ==> is_ident_char(#[trigger] t@[k]),
        decreases n - i,
    {
        if !ident_char(t.as_str().get_char(i)) {
            return false;
        }
        i += 1;
    }
    if n == 4 {
        let c0 = t.as_str().get_char(0);
        let c1 = t.as_str().get_char(1);
        let c2 = t.as_str().get_char(2);
        let c3 = t.as_str().get_char(3);
        if c0 == 't' && c1 == 'r' && c2 == 'u' && c3 == 'e' {
            return false;
        }
        if c0 == 'n' && c1 == 'u' && c2 == 'l' && c3 == 'l' {
            return false;
        }
    }
    if n == 5 {
        let c0 = t.as_str().get_char(0);
        let c1 = t.as_str().get_char(1);
        let c2 = t.as_str().get_char(2);
        let c3 = t.as_str().get_char(3);
        let c4 = t.as_str().get_char(4);
        if c0 == 'f' && c1 == 'a' && c2 == 'l' && c3 == 's' && c4 == 'e' {
            return false;
        }
    }
    true
}

/// Appends an identifier, bare where possible.
fn push_ident(out: &mut String, t: &String)
    ensures
        final(out)@ == old(out)@ + ident_str(t@),
{
    if bare_allowed(t) {
        out.append(t.as_str());
    } else {
        push_quoted(out, t);
    }
}

/// Appends the rendering of a scalar.
fn push_scalar(out: &mut String, v: &KdlScalar)
    ensures
        final(out)@ == old(out)@ + scalar_str(*v),
{
    match v {
        KdlScalar::Str(t) => push_quoted(out, t),
        KdlScalar::Int(n) => push_int(out, *n),
        KdlScalar::Float(t) => out.append(t.as_str()),
        KdlScalar::Bool(b) => {
            if *b {
                push_char(out, 't');
                push_char(out, 'r');
                push_char(out, 'u');
                push_char(out, 'e');
            } else {
                push_char(out, 'f');
                push_char(out, 'a');
                push_char(out, 'l');
                push_char(out, 's');
                push_char(out, 'e');
            }
            proof {
                assert(out@ =~= old(out)@ + scalar_str(*v));
            }
        },
        KdlScalar::Null => {
            push_char(out, 'n');
            push_char(out, 'u');
            push_char(out, 'l');
            push_char(out, 'l');
            proof {
                assert(out@ =~= old(out)@ + scalar_str(*v));
            }
        },
    }
}

/// Appends the rendering of a value, annotation included.
fn push_value(out: &mut String, v: &KdlValue)
    ensures
        final(out)@ == old(out)@ + value_str(*v),
{
    match &v.annotation {
        Some(a) => {
            push_char(out, '(');
            push_ident(out, a);
            push_char(out, ')');
            push_scalar(out, &v.scalar);
            proof {
                assert(out@ =~= old(out)@ + value_str(*v));
            }
        },
        None => {
            push_scalar(out, &v.scalar);
        },
    }
}

/// Appends the rendering of one node, terminator included.
#[verifier::rlimit(60)]
pub fn push_node(out: &mut String, n: &KdlNode)
    ensures
        final(out)@ == old(out)@ + node_str(*n),
    decreases *n, 1int,
{
    let ghost base = out@;
    let ghost annpart: Seq<char> = match &n.annotation {
        Some(a) => seq!['('] + ident_str(a@) + seq![')'],
        None => Seq::empty(),
    };
    match &n.annotation {
        Some(a) => {
            push_char(out, '(');
            push_ident(out, a);
            push_char(out, ')');
            proof {
                assert(out@ =~= base + annpart);
            }
        },
        None => {
            proof {
                assert(out@ =~= base + annpart);
            }
        },
    }
    push_ident(out, &n.name);
    proof {
        assert(out@ =~= base + annpart + ident_str(n.name@));
    }
    let ghost head = out@;
    let mut i: usize = 0;
    proof {
        assert(n.values@.subrange(0, 0) =~= Seq::<KdlValue>::empty());
    }
    while i < n.values.len()
        invariant
            i <= n.values@.len(),
            out@ == head + values_str(n.values@.subrange(0, i as int)),
        decreases n.values@.len() - i,
    {
        let ghost pre = n.values@.subrange(0, i as int);
        let ghost cur = n.values@.subrange(0, i as int + 1);
        proof {
            assert(cur.drop_last() =~= pre);
            assert(cur.last() == n.values@[i as int]);
        }
        push_char(out, ' ');
        push_value(out, &n.values[i]);
        proof {
            assert(out@ =~= head + values_str(cur));
        }
        i += 1;
    }
    proof {
        assert(n.values@.subrange(0, n.values@.len() as int) =~= n.values@);
    }
    let ghost mid = out@;
    let mut j: usize = 0;
    proof {
        assert(n.properties@.subrange(0, 0) =~= Seq::<KdlProperty>::empty());
    }
    while j < n.properties.len()
        invariant
            j <= n.properties@.len(),
            out@ == mid + props_str(n.properties@.subrange(0, j as int)),
        decreases n.properties@.len() - j,
    {
        let ghost pre = n.properties@.subrange(0, j as int);
        let ghost cur = n.properties@.subrange(0, j as int + 1);
        proof {
            assert(cur.drop_last() =~= pre);
            assert(cur.last() == n.properties@[j as int]);
        }
        push_char(out, ' ');
        push_ident(out, &n.properties[j].name);
        push_char(out, '=');
        push_value(out, &n.properties[j].value);
        proof {
            assert(out@ =~= mid + props_str(cur));
        }
        j += 1;
    }
    proof {
        assert(n.properties@.subrange(0, n.properties@.len() as int) =~= n.properties@);
    }
    let ghost pre_kids = out@;
    let ghost kidpart: Seq<char> = match &n.children {
        Some(c) => seq![' ', '{'] + nodes_str(c@) + seq!['}'],
        None => Seq::empty(),
    };
    match &n.children {
        Some(c) => {
            push_char(out, ' ');
            push_char(out, '{');
            push_nodes(out, c);
            push_char(out, '}');
            proof {
                assert(out@ =~= pre_kids + kidpart);
            }
        },
        None => {
            proof {
                assert(out@ =~= pre_kids + kidpart);
            }
        },
    }
    push_char(out, ';');
    proof {
        assert(node_str(*n) == annpart + ident_str(n.name@) + values_str(n.values@) + props_str(
            n.properties@,
        ) + kidpart + seq![';']);
        assert(out@ =~= old(out)@ + node_str(*n));
    }
}

/// Appends the rendering of a run of nodes.
#[verifier::loop_isolation(false)]
pub fn push_nodes(out: &mut String, ns: &Vec<KdlNode>)
    ensures
        final(out)@ == old(out)@ + nodes_str(ns@),
    decreases ns@, 0int,
{
    let ghost head = out@;
    let mut i: usize = 0;
    proof {
        assert(ns@.subrange(0, 0) =~= Seq::<KdlNode>::empty());
    }
    while i < ns.len()
        invariant
            i <= ns@.len(),
            out@ == head + nodes_str(ns@.subrange(0, i as int)),
        decreases ns@.len() - i,
    {
        let ghost pre = ns@.subrange(0, i as int);
        let ghost cur = ns@.subrange(0, i as int + 1);
        proof {
            assert(cur.drop_last() =~= pre);
            assert(cur.last() == ns@[i as int]);
        }
        push_node(out, &ns[i]);
        proof {
            assert(out@ =~= head + nodes_str(cur));
        }
        i += 1;
    }
    proof {
        assert(ns@.subrange(0, ns@.len() as int) =~= ns@);
    }
}

/// One piece of the round-trip law that the renderer controls: the
/// decimal rendering of an integer of at least zero is a run of decimal
/// digits, and those digits denote the integer again.  Together with the
/// number parser's contract this pins down that an integer survives a
/// render-and-reparse unchanged.
pub proof fn lemma_dec_str_round_trip(n: int)
    requires
        n >= 0,
    ensures
        dec_str(n).len() > 0,
        forall|i: int| 0 <= i < dec_str(n).len() ==> digit_val(#[trigger] dec_str(n)[i]) < 10,
        crate::chars::int_of_digits(dec_str(n), 10) == n,
    decreases n,
{
    if n < 10 {
        let one = seq![digit_char(n)];
        assert(one.drop_last() =~= Seq::<char>::empty());
        assert(one.last() == digit_char(n));
        assert(digit_val(digit_char(n)) == n);
        assert(crate::chars::int_of_digits(one, 10) == crate::chars::int_of_digits(
            Seq::<char>::empty(),
            10,
        ) * 10 + digit_val(digit_char(n)));
    } else {
        lemma_dec_str_round_trip(n / 10);
        let s = dec_str(n / 10);
        let d = digit_char(n % 10);
        assert(s.push(d).drop_last() =~= s);
        assert(digit_val(d) == n % 10);
        assert(crate::chars::int_of_digits(s.push(d), 10) == (n / 10) * 10 + n % 10);
    }
}

/// The body rendering read from the front: the first character's escape,
/// then the rest.
proof fn lemma_str_body_head(t: Seq<char>)
    requires
        t.len() > 0,
    ensures
        str_body(t) == esc_of(t[0]) + str_body(t.drop_first()),
    decreases t.len(),
{
    if t.len() == 1 {
        assert(t.drop_last() =~= Seq::<char>::empty());
        assert(t.drop_first() =~= Seq::<char>::empty());
        assert(t.last() == t[0]);
        assert(str_body(t) =~= esc_of(t[0]) + str_body(t.drop_first()));
    } else {
        lemma_str_body_head(t.drop_last());
        assert(t.drop_last()[0] == t[0]);
        assert(t.drop_last().drop_first() =~= t.drop_first().drop_last());
        assert(t.drop_first().last() == t.last());
        assert(str_body(t.drop_first()) == str_body(t.drop_first().drop_last()) + esc_of(
            t.drop_first().last(),
        ));
        assert(str_body(t) =~= esc_of(t[0]) + str_body(t.drop_first()));
    }
}

/// Scanning a rendered string body recovers exactly the original
/// characters and stops just past the closing quote, whatever follows.
proof fn lemma_scan_rendered_body(t: Seq<char>, s: Seq<char>, p: int, u: Seq<char>)
    requires
        0 <= p <= s.len(),
        s.subrange(p, s.len() as int) == str_body(t) + seq!['"'] + u,
    ensures
        string_end(s, p) == Some(p + str_body(t).len() + 1),
        string_content(s, p) == t,
    decreases t.len(),
{
    let tail = s.subrange(p, s.len() as int);
    assert(tail.len() == s.len() - p);
    if t.len() == 0 {
        assert(str_body(t) =~= Seq::<char>::empty());
        assert(tail[0] == '"');
        assert(tail[0] == s[p]);
        assert(string_content(s, p) =~= Seq::<char>::empty());
    } else {
        lemma_str_body_head(t);
        let c = t[0];
        let e = esc_of(c);
        let rest = t.drop_first();
        assert(tail =~= e + (str_body(rest) + seq!['"'] + u));
        assert(seq![c] + rest =~= t);
        if c == '"' || c == '\\' || c == '\n' || c == '\r' || c == '\t' {
            assert(e.len() == 2 && e[0] == '\\');
            assert(tail[0] == e[0] && tail[1] == e[1]);
            assert(tail[0] == s[p] && tail[1] == s[p + 1]);
            assert(is_escape(e[1]));
            assert(esc_char(e[1]) == c);
            assert(s.subrange(p + 2, s.len() as int) =~= tail.subrange(2, tail.len() as int));
            assert(tail.subrange(2, tail.len() as int) =~= str_body(rest) + seq!['"'] + u);
            assert(s.subrange(p + 2, s.len() as int) == str_body(rest) + seq!['"'] + u);
            lemma_scan_rendered_body(rest, s, p + 2, u);
            assert(string_end(s, p) == string_end(s, p + 2));
            assert(string_content(s, p) =~= seq![c] + string_content(s, p + 2));
        } else {
            assert(e.len() == 1 && e[0] == c);
            assert(tail[0] == e[0]);
            assert(tail[0] == s[p]);
            assert(s.subrange(p + 1, s.len() as int) =~= tail.subrange(1, tail.len() as int));
            assert(tail.subrange(1, tail.len() as int) =~= str_body(rest) + seq!['"'] + u);
            assert(s.subrange(p + 1, s.len() as int) == str_body(rest) + seq!['"'] + u);
            lemma_scan_rendered_body(rest, s, p + 1, u);
            assert(string_end(s, p) == string_end(s, p + 1));
            assert(string_content(s, p) =~= seq![c] + string_content(s, p + 1));
        }
    }
}

/// Another piece of the round-trip law: a string literal as the renderer
/// writes it — quotes and escapes — reparses to exactly the original
/// characters and ends just past its closing quote, whatever text
/// follows the literal.  Together with the string parser's contract this
/// pins down that a string value or a quoted identifier survives a
/// render-and-reparse unchanged.
pub proof fn lemma_quoted_round_trip(t: Seq<char>, u: Seq<char>)
    ensures
        string_end(quoted(t) + u, 1) == Some(quoted(t).len() as int),
        string_content(quoted(t) + u, 1) == t,
{
    let s = quoted(t) + u;
    assert(s.subrange(1, s.len() as int) =~= str_body(t) + seq!['"'] + u);
    lemma_scan_rendered_body(t, s, 1, u);
    assert(quoted(t).len() == 1 + str_body(t).len() + 1);
}

/// The identifier scan over a bare identifier followed by `u` stops at
/// the identifier's end, from any start inside it.
proof fn lemma_bare_scan(t: Seq<char>, u: Seq<char>, k: int)
    requires
        bare_ok(t),
        u.len() == 0 || !is_ident_char(u[0]),
        0 <= k <= t.len(),
    ensures
        ident_end(t + u, k) == t.len(),
    decreases t.len() - k,
{
    let s = t + u;
    if k < t.len() {
        assert(s[k] == t[k]);
        lemma_bare_scan(t, u, k + 1);
    } else {
        if u.len() > 0 {
            assert(s[k] == u[0]);
        }
    }
}

/// A third piece of the round-trip law: an identifier the renderer may
/// write bare scans back to exactly itself whenever the following text
/// cannot continue an identifier.  Together with the identifier parser's
/// contract this pins down that a bare name survives a render-and-reparse
/// unchanged.
pub proof fn lemma_bare_ident_round_trip(t: Seq<char>, u: Seq<char>)
    requires
        bare_ok(t),
        u.len() == 0 || !is_ident_char(u[0]),
    ensures
        ident_end(t + u, 0) == t.len(),
        (t + u).subrange(0, t.len() as int) == t,
{
    lemma_bare_scan(t, u, 0);
    assert((t + u).subrange(0, t.len() as int) =~= t);
}

/// Renders a document to text in the canonical form, character for
/// character what [`document_str`] gives.
pub fn render_document(d: &KdlDocument) -> (r: String)
    ensures
        r@ == document_str(*d),
{
    let mut out = String::new();
    push_nodes(&mut out, &d.nodes);
    proof {
        assert(Seq::<char>::empty() + nodes_str(d.nodes@) =~= nodes_str(d.nodes@));
    }
    out
}

} // verus!
