//! Small text helpers: rendering works on character lists, and only the
//! final conversion back to `String` crosses into the standard library.

use vstd::prelude::*;

verus! {

/// Appends every character of a string slice to the accumulator.
pub fn push_str_chars(s: &str, out: &mut Vec<char>)
    ensures
        final(out)@ == old(out)@ + s@,
{
    let n = s.unicode_len();
    let mut i: usize = 0;
    while i < n
        invariant
            n == s@.len(),
            i <= n,
            out@ == old(out)@ + s@.take(i as int),
        decreases n - i,
    {
        let c = s.get_char(i);
        out.push(c);
        proof {
            assert(s@.take(i + 1) =~= s@.take(i as int).push(s@[i as int]));
        }
        i = i + 1;
    }
    proof {
        assert(s@.take(n as int) =~= s@);
    }
}

/// Appends every character of one list to another.
pub fn push_all(src: &Vec<char>, out: &mut Vec<char>)
    ensures
        final(out)@ == old(out)@ + src@,
{
    let n = src.len();
    let mut i: usize = 0;
    while i < n
        invariant
            n == src@.len(),
            i <= n,
            out@ == old(out)@ + src@.take(i as int),
        decreases n - i,
    {
        out.push(src[i]);
        proof {
            assert(src@.take(i + 1) =~= src@.take(i as int).push(src@[i as int]));
        }
        i = i + 1;
    }
    proof {
        assert(src@.take(n as int) =~= src@);
    }
}

/// Relies on String's FromIterator over characters: collecting a character
/// list yields the string of exactly those characters.
#[verifier::external_body]
pub fn chars_to_string(v: &Vec<char>) -> (r: String)
    ensures
        r@ == v@,
{
    v.iter().collect()
}

/// Whether one character list equals another.
pub fn chars_eq(a: &Vec<char>, b: &Vec<char>) -> (r: bool)
    ensures
        r == (a@ == b@),
{
    if a.len() != b.len() {
        proof {
            assert(a@ != b@);
        }
        return false;
    }
    let n = a.len();
    let mut i: usize = 0;
    while i < n
        invariant
            n == a@.len(),
            n == b@.len(),
            i <= n,
            forall|j: int| 0 <= j < i ==> a@[j] == b@[j],
        decreases n - i,
    {
        if a[i] != b[i] {
            proof {
                assert(a@[i as int] != b@[i as int]);
            }
            return false;
        }
        i = i + 1;
    }
    proof {
        assert(a@ =~= b@);
    }
    true
}

/// Whether a string slice's characters equal a character list.
pub fn str_eq_chars(s: &str, b: &Vec<char>) -> (r: bool)
    ensures
        r == (s@ == b@),
{
    let mut v: Vec<char> = Vec::new();
    push_str_chars(s, &mut v);
    proof {
        assert(v@ =~= s@);
    }
    chars_eq(&v, b)
}

/// Whether two string slices hold the same characters.
pub fn str_eq_str(a: &str, b: &str) -> (r: bool)
    ensures
        r == (a@ == b@),
{
    let mut v: Vec<char> = Vec::new();
    push_str_chars(b, &mut v);
    proof {
        assert(v@ =~= b@);
    }
    str_eq_chars(a, &v)
}


/// The number of bytes a character occupies in the encoding the parser's
/// offsets count.
pub open spec fn utf8_len(c: char) -> int {
    if (c as u32) < 0x80 {
        1
    } else if (c as u32) < 0x800 {
        2
    } else if (c as u32) < 0x10000 {
        3
    } else {
        4
    }
}

pub fn utf8_len_exec(c: char) -> (r: usize)
    ensures
        r as int == utf8_len(c),
{
    if (c as u32) < 0x80 {
        1
    } else if (c as u32) < 0x800 {
        2
    } else if (c as u32) < 0x10000 {
        3
    } else {
        4
    }
}

/// The character position a byte offset falls at: how many leading
/// characters fit wholly before the offset.  An offset inside a character
/// rounds down to its start; one beyond the text ends at the text's end.
pub open spec fn char_pos_of_byte(s: Seq<char>, byte: int) -> int
    decreases s.len(),
{
    if s.len() == 0 || byte < utf8_len(s[0]) {
        0
    } else {
        1 + char_pos_of_byte(s.drop_first(), byte - utf8_len(s[0]))
    }
}

/// The character position never passes the end of the text.
pub proof fn lemma_char_pos_of_byte_bound(s: Seq<char>, byte: int)
    ensures
        0 <= char_pos_of_byte(s, byte) <= s.len(),
    decreases s.len(),
{
    if !(s.len() == 0 || byte < utf8_len(s[0])) {
        lemma_char_pos_of_byte_bound(s.drop_first(), byte - utf8_len(s[0]));
    }
}

} // verus!

