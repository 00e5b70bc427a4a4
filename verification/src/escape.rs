//! Escaping of text for inclusion in markup.

use vstd::prelude::*;
use crate::text::push_str;

verus! {

/// What stands for `c` in markup: in attribute values (`attr_mode`) the
/// ampersand, the no-break space and the double quote are replaced, in
/// content the ampersand, the no-break space and the angle brackets.
pub open spec fn escaped_char(c: char, attr_mode: bool) -> Seq<char> {
    if c == '&' {
        "&amp;"@
    } else if c == '\u{00A0}' {
        "&nbsp;"@
    } else if c == '"' && attr_mode {
        "&quot;"@
    } else if c == '<' && !attr_mode {
        "&lt;"@
    } else if c == '>' && !attr_mode {
        "&gt;"@
    } else {
        seq![c]
    }
}

/// The text `s` with every character escaped.
pub open spec fn escaped(s: Seq<char>, attr_mode: bool) -> Seq<char>
    decreases s.len(),
{
    if s.len() == 0 {
        Seq::empty()
    } else {
        escaped(s.drop_last(), attr_mode) + escaped_char(s.last(), attr_mode)
    }
}

/// Appends what stands for `c` in markup to `out`.
pub fn push_escaped_char(out: &mut Vec<char>, c: char, attr_mode: bool)
    ensures
        final(out)@ == old(out)@ + escaped_char(c, attr_mode),
{
    if c == '&' {
        push_str(out, "&amp;");
    } else if c == '\u{00A0}' {
        push_str(out, "&nbsp;");
    } else if c == '"' && attr_mode {
        push_str(out, "&quot;");
    } else if c == '<' && !attr_mode {
        push_str(out, "&lt;");
    } else if c == '>' && !attr_mode {
        push_str(out, "&gt;");
    } else {
        out.push(c);
    }
}

/// Appends the escaped form of `v` to `out`.
pub fn push_escaped(out: &mut Vec<char>, v: &Vec<char>, attr_mode: bool)
    ensures
        final(out)@ == old(out)@ + escaped(v@, attr_mode),
{
    let mut i: usize = 0;
    while i < v.len()
        invariant
            i <= v.len(),
            out@ == old(out)@ + escaped(v@.take(i as int), attr_mode),
        decreases v.len() - i,
    {
        push_escaped_char(out, v[i], attr_mode);
        assert(v@.take(i + 1).drop_last() == v@.take(i as int));
        i += 1;
    }
    assert(v@.take(v.len() as int) == v@);
}

} // verus!
