//! Escaping at human-output boundaries only, never in stored or operational data.
use vstd::prelude::*;

use crate::text::{chars, string_of};

verus! {

broadcast use vstd::seq::group_seq_axioms;

/// A control character: C0, DEL or C1.
pub open spec fn is_control(c: char) -> bool {
    ('\0' <= c && c <= '\u{1f}') || ('\u{7f}' <= c && c <= '\u{9f}')
}

pub open spec fn hex_digit(d: u32) -> char {
    if d < 10 {
        ((('0' as u32) + d) as char)
    } else {
        ((('a' as u32) + d - 10) as char)
    }
}

/// The printable spelling of one character.
pub open spec fn escape_char(c: char) -> Seq<char> {
    if c == '\\' {
        seq!['\\', '\\']
    } else if c == '\n' {
        seq!['\\', 'n']
    } else if c == '\r' {
        seq!['\\', 'r']
    } else if c == '\t' {
        seq!['\\', 't']
    } else if is_control(c) {
        seq!['\\', 'x', hex_digit((c as u32) / 16), hex_digit((c as u32) % 16)]
    } else {
        seq![c]
    }
}

/// The printable spelling of a text.
pub open spec fn escape_seq(s: Seq<char>) -> Seq<char>
    decreases s.len(),
{
    if s.len() == 0 {
        Seq::empty()
    } else {
        escape_seq(s.drop_last()) + escape_char(s.last())
    }
}

fn hex(d: u32) -> (c: char)
    requires
        d < 16,
    ensures
        c == hex_digit(d),
{
    match d {
        0 => '0',
        1 => '1',
        2 => '2',
        3 => '3',
        4 => '4',
        5 => '5',
        6 => '6',
        7 => '7',
        8 => '8',
        9 => '9',
        10 => 'a',
        11 => 'b',
        12 => 'c',
        13 => 'd',
        14 => 'e',
        _ => 'f',
    }
}

/// Spells control characters and backslashes with backslash escapes.
pub fn escape(value: &str) -> (r: String)
    ensures
        r@ == escape_seq(value@),
{
    let v = chars(value);
    let mut out: Vec<char> = Vec::new();
    let mut i: usize = 0;
    while i < v.len()
        invariant
            i <= v@.len(),
            v@ == value@,
            out@ == escape_seq(v@.subrange(0, i as int)),
        decreases v.len() - i,
    {
        let c = v[i];
        let ghost before = out@;
        assert(v@.subrange(0, i + 1).drop_last() =~= v@.subrange(0, i as int));
        if c == '\\' {
            out.push('\\');
            out.push('\\');
        } else if c == '\n' {
            out.push('\\');
            out.push('n');
        } else if c == '\r' {
            out.push('\\');
            out.push('r');
        } else if c == '\t' {
            out.push('\\');
            out.push('t');
        } else if ('\0' <= c && c <= '\u{1f}') || ('\u{7f}' <= c && c <= '\u{9f}') {
            let code = c as u32;
            out.push('\\');
            out.push('x');
            out.push(hex(code / 16));
            out.push(hex(code % 16));
        } else {
            out.push(c);
        }
        assert(out@ =~= before + escape_char(c));
        i += 1;
    }
    assert(v@.subrange(0, v@.len() as int) =~= v@);
    string_of(&out)
}

/// Escaped text holds no control character.
pub proof fn law_escape_has_no_controls(s: Seq<char>)
    ensures
        forall|i: int| 0 <= i < escape_seq(s).len() ==> !is_control(#[trigger] escape_seq(s)[i]),
    decreases s.len(),
{
    if s.len() > 0 {
        law_escape_has_no_controls(s.drop_last());
        let c = s.last();
        let e = escape_char(c);
        if is_control(c) && c != '\n' && c != '\r' && c != '\t' {
            assert((c as u32) / 16 < 16);
            assert((c as u32) % 16 < 16);
        }
        assert forall|i: int| 0 <= i < e.len() implies !is_control(#[trigger] e[i]) by {}
        assert forall|i: int| 0 <= i < escape_seq(s).len() implies !is_control(#[trigger] escape_seq(s)[i]) by {
            let a = escape_seq(s.drop_last());
            if i >= a.len() {
                assert(escape_seq(s)[i] == e[i - a.len()]);
            } else {
                assert(escape_seq(s)[i] == a[i]);
            }
        }
    }
}

} // verus!
