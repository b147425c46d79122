//! Escaping of string literals and attribute names for rendered source text.

use vstd::prelude::*;
use crate::strutil::{push_str_chars, chars_to_string};

verus! {

/// How one character of a string literal is written out: double quote,
/// backslash, newline, carriage return and tab are escaped, and a dollar sign
/// directly before an opening brace is escaped so that no interpolation
/// arises by accident.  Everything else passes through unchanged.
pub open spec fn spec_escape_fragment(s: Seq<char>) -> Seq<char>
    decreases s.len(),
{
    if s.len() == 0 {
        Seq::empty()
    } else {
        let c = s[0];
        let enc: Seq<char> = if c == '"' {
            seq!['\\', '"']
        } else if c == '\\' {
            seq!['\\', '\\']
        } else if c == '\n' {
            seq!['\\', 'n']
        } else if c == '\r' {
            seq!['\\', 'r']
        } else if c == '\t' {
            seq!['\\', 't']
        } else if c == '$' && s.len() >= 2 && s[1] == '{' {
            seq!['\\', '$']
        } else {
            seq![c]
        };
        enc + spec_escape_fragment(s.drop_first())
    }
}

/// A rendered string literal: the escaped text between double quotes.
pub open spec fn spec_escape_string(s: Seq<char>) -> Seq<char> {
    seq!['"'] + spec_escape_fragment(s) + seq!['"']
}

/// Appends the escaped form of the text to the accumulator, without quotes.
pub fn push_escape_fragment(text: &str, out: &mut Vec<char>)
    ensures
        final(out)@ == old(out)@ + spec_escape_fragment(text@),
{
    let mut v: Vec<char> = Vec::new();
    push_str_chars(text, &mut v);
    proof {
        assert(v@ =~= text@);
    }
    let n = v.len();
    proof {
        assert(v@.skip(0) =~= v@);
    }
    let mut i: usize = 0;
    while i < n
        invariant
            n == v@.len(),
            v@ == text@,
            i <= n,
            out@ + spec_escape_fragment(v@.skip(i as int)) == old(out)@ + spec_escape_fragment(
                v@,
            ),
        decreases n - i,
    {
        let ghost rest = v@.skip(i as int);
        proof {
            assert(rest[0] == v@[i as int]);
            assert(rest.drop_first() =~= v@.skip(i + 1));
            if rest.len() >= 2 {
                assert(rest[1] == v@[i + 1]);
            }
        }
        let c = v[i];
        if c == '"' {
            out.push('\\');
            out.push('"');
        } else if c == '\\' {
            out.push('\\');
            out.push('\\');
        } else if c == '\n' {
            out.push('\\');
            out.push('n');
        } else if c == '\r' {
            out.push('\\');
            out.push('r');
        } else if c == '\t' {
            out.push('\\');
            out.push('t');
        } else if c == '$' && i + 1 < n && v[i + 1] == '{' {
            out.push('\\');
            out.push('$');
        } else {
            out.push(c);
        }
        proof {
            assert(out@ + spec_escape_fragment(v@.skip(i + 1)) =~= old(out)@
                + spec_escape_fragment(v@));
        }
        i = i + 1;
    }
    proof {
        assert(v@.skip(n as int) =~= Seq::<char>::empty());
        assert(out@ =~= old(out)@ + spec_escape_fragment(v@));
    }
}

/// Appends a quoted, escaped string literal to the accumulator.
pub fn push_escape_string(text: &str, out: &mut Vec<char>)
    ensures
        final(out)@ == old(out)@ + spec_escape_string(text@),
{
    out.push('"');
    push_escape_fragment(text, out);
    out.push('"');
    proof {
        assert(out@ =~= old(out)@ + spec_escape_string(text@));
    }
}

/// Quotes and escapes a text as a string literal of the language.
pub fn escape_string(text: &str) -> (r: String)
    ensures
        r@ == spec_escape_string(text@),
{
    let mut out: Vec<char> = Vec::new();
    push_escape_string(text, &mut out);
    chars_to_string(&out)
}

/// A piece of text to be written into a string literal.  Rendering it yields
/// the escaped form without the surrounding quotes.
#[derive(Debug, Clone)]
pub struct EscapeStringFragment<'a>(pub &'a str);

impl<'a> EscapeStringFragment<'a> {
    /// The escaped form of the fragment.
    pub fn render(&self) -> (r: String)
        ensures
            r@ == spec_escape_fragment(self.0@),
    {
        let mut out: Vec<char> = Vec::new();
        push_escape_fragment(self.0, &mut out);
        chars_to_string(&out)
    }
}

/// The first character a bare attribute name may hold.
pub open spec fn is_ident_start(c: char) -> bool {
    ('A' <= c && c <= 'Z') || ('a' <= c && c <= 'z') || c == '_'
}

/// Any later character a bare attribute name may hold.
pub open spec fn is_ident_char(c: char) -> bool {
    is_ident_start(c) || ('0' <= c && c <= '9') || c == '\'' || c == '-'
}

/// Whether a text is a valid bare identifier, and so needs no quoting when
/// it stands as an attribute name.
pub open spec fn is_valid_ident(s: Seq<char>) -> bool {
    s.len() >= 1 && is_ident_start(s[0]) && forall|i: int| 1 <= i < s.len() ==> is_ident_char(s[i])
}

pub fn valid_ident(text: &str) -> (r: bool)
    ensures
        r == is_valid_ident(text@),
{
    let mut v: Vec<char> = Vec::new();
    push_str_chars(text, &mut v);
    proof {
        assert(v@ =~= text@);
    }
    let n = v.len();
    if n == 0 {
        return false;
    }
    let c0 = v[0];
    if !(('A' <= c0 && c0 <= 'Z') || ('a' <= c0 && c0 <= 'z') || c0 == '_') {
        return false;
    }
    let mut i: usize = 1;
    while i < n
        invariant
            n == v@.len(),
            v@ == text@,
            1 <= i <= n,
            is_ident_start(v@[0]),
            forall|j: int| 1 <= j < i ==> is_ident_char(v@[j]),
        decreases n - i,
    {
        let c = v[i];
        if !(('A' <= c && c <= 'Z') || ('a' <= c && c <= 'z') || c == '_' || ('0' <= c && c <= '9')
            || c == '\'' || c == '-') {
            return false;
        }
        i = i + 1;
    }
    true
}

/// An attribute name as it is rendered: bare when it is a valid identifier,
/// quoted and escaped otherwise.
pub open spec fn spec_escape_attr(s: Seq<char>) -> Seq<char> {
    if is_valid_ident(s) {
        s
    } else {
        spec_escape_string(s)
    }
}

pub fn escape_attr(attr: &str) -> (r: String)
    ensures
        r@ == spec_escape_attr(attr@),
{
    if valid_ident(attr) {
        let mut out: Vec<char> = Vec::new();
        push_str_chars(attr, &mut out);
        chars_to_string(&out)
    } else {
        escape_string(attr)
    }
}

} // verus!
