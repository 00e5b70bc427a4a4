//! Shortcodes: the `{{ name args }}` directives embedded in paragraph text.
//!
//! The reserved command `html` passes its arguments through as raw markup.
//! Every other directive is left, in the canonical `{{< name args >}}` form
//! inside a comment, for the site generator to expand.

use vstd::prelude::*;
use vstd::string::StringExecFns;
use crate::model::RenderError;
use crate::text::{
    chars_eq, drop_repeated, drop_spaces, find_from, first_match, lemma_first_match, push_range,
    push_str, skip_repeated, skip_spaces, strip_leading, strip_trailing, to_chars, to_text, trim,
    trim_end,
};

verus! {

/// The delimiter that opens a shortcode.
pub open spec fn open_delimiter() -> Seq<char> {
    seq!['{', '{']
}

/// The delimiter that closes a shortcode.
pub open spec fn close_delimiter() -> Seq<char> {
    seq!['}', '}']
}

/// `c`, with the typographic closing quotes replaced by the plain ones.
pub open spec fn plain_quote(c: char) -> char {
    if c == '\u{201D}' {
        '"'
    } else if c == '\u{2019}' {
        '\''
    } else {
        c
    }
}

/// `s` with the typographic closing quotes replaced by the plain ones.
pub open spec fn plain_quotes(s: Seq<char>) -> Seq<char> {
    Seq::new(s.len(), |i: int| plain_quote(s[i]))
}

/// The directive held by a segment: the segment without a leading `<`,
/// without the closing delimiter and a `>` before it, and trimmed.
pub open spec fn directive(segment: Seq<char>) -> Seq<char> {
    trim(
        strip_trailing(
            strip_trailing(trim_end(strip_leading(segment, seq!['<'])), close_delimiter()),
            seq!['>'],
        ),
    )
}

/// The markup of a directive: the arguments of the command `html` as they
/// stand, any other directive as a comment in canonical form.
pub open spec fn directive_markup(code: Seq<char>) -> Seq<char> {
    let (command, arguments) = match first_match(code, seq![' ']) {
        Some(i) => (code.take(i), code.skip(i + 1)),
        None => (code, Seq::empty()),
    };
    if command == "html"@ {
        arguments
    } else {
        "<!--{{< "@ + code + " >}}-->"@
    }
}

/// The markup of one segment of a text split at the opening delimiter.
pub open spec fn segment_markup(segment: Seq<char>) -> Seq<char> {
    if segment.len() == 0 {
        Seq::empty()
    } else {
        directive_markup(directive(segment))
    }
}

/// The markup of the segments of `s` between the opening delimiters.
pub open spec fn segments_markup(s: Seq<char>) -> Seq<char>
    decreases s.len(),
{
    match first_match(s, open_delimiter()) {
        Some(i) => if 0 <= i && i + 2 <= s.len() {
            segment_markup(s.take(i)) + segments_markup(s.skip(i + 2))
        } else {
            Seq::empty()
        },
        None => segment_markup(s),
    }
}

/// The markup of the shortcodes of `text`: the text, its typographic
/// quotes made plain, is split at every `{{`; what stands before the first
/// `{{` is dropped, and each further segment gives its markup.
pub open spec fn shortcodes_markup(text: Seq<char>) -> Seq<char> {
    let s = plain_quotes(text);
    match first_match(s, open_delimiter()) {
        Some(i) => if 0 <= i && i + 2 <= s.len() {
            segments_markup(s.skip(i + 2))
        } else {
            Seq::empty()
        },
        None => Seq::empty(),
    }
}

/// Appends the markup of the segment `v[lo..hi]` to `out`.
pub fn write_segment(v: &Vec<char>, lo: usize, hi: usize, out: &mut Vec<char>)
    requires
        lo <= hi <= v.len(),
    ensures
        final(out)@ == old(out)@ + segment_markup(v@.subrange(lo as int, hi as int)),
{
    if lo == hi {
        assert(old(out)@ + Seq::<char>::empty() == old(out)@);
        return ;
    }
    let mut angle: Vec<char> = Vec::new();
    angle.push('<');
    let mut close: Vec<char> = Vec::new();
    close.push('}');
    close.push('}');
    let mut end_angle: Vec<char> = Vec::new();
    end_angle.push('>');
    let mut space: Vec<char> = Vec::new();
    space.push(' ');
    assert(angle@ == seq!['<']);
    assert(close@ == close_delimiter());
    assert(end_angle@ == seq!['>']);
    assert(space@ == seq![' ']);
    let a: usize = skip_repeated(v, lo, hi, &angle);
    let b: usize = drop_spaces(v, a, hi);
    let c: usize = drop_repeated(v, a, b, &close);
    let d: usize = drop_repeated(v, a, c, &end_angle);
    let from: usize = skip_spaces(v, a, d);
    let to: usize = drop_spaces(v, from, d);
    let ghost code = v@.subrange(from as int, to as int);
    assert(code == directive(v@.subrange(lo as int, hi as int)));
    let mut command: Vec<char> = Vec::new();
    match find_from(v, from, to, &space) {
        Some(i) => {
            proof {
                lemma_first_match(code, seq![' ']);
            }
            push_range(&mut command, v, from, i);
            assert(command@ == code.take(i - from));
            if chars_eq(&command, "html") {
                push_range(out, v, i + 1, to);
                assert(v@.subrange(i + 1, to as int) == code.skip(i - from + 1));
            } else {
                push_str(out, "<!--{{< ");
                push_range(out, v, from, to);
                push_str(out, " >}}-->");
            }
        },
        None => {
            push_range(&mut command, v, from, to);
            if chars_eq(&command, "html") {
                assert(old(out)@ + Seq::<char>::empty() == old(out)@);
            } else {
                push_str(out, "<!--{{< ");
                push_range(out, v, from, to);
                push_str(out, " >}}-->");
            }
        },
    }
}

/// The characters of `text`, typographic closing quotes made plain.
pub fn with_plain_quotes(text: &str) -> (v: Vec<char>)
    ensures
        v@ == plain_quotes(text@),
{
    let src = to_chars(text);
    let mut v: Vec<char> = Vec::new();
    let mut i: usize = 0;
    while i < src.len()
        invariant
            i <= src.len(),
            src@ == text@,
            v@ == plain_quotes(src@.take(i as int)),
        decreases src.len() - i,
    {
        let c = src[i];
        if c == '\u{201D}' {
            v.push('"');
        } else if c == '\u{2019}' {
            v.push('\'');
        } else {
            v.push(c);
        }
        assert(v@ == plain_quotes(src@.take(i + 1)));
        i += 1;
    }
    assert(src@.take(src.len() as int) == src@);
    v
}

/// Appends the markup of the shortcodes of `text` to `out`.
pub fn push_shortcodes(text: &str, out: &mut Vec<char>)
    ensures
        final(out)@ == old(out)@ + shortcodes_markup(text@),
{
    let v = with_plain_quotes(text);
    let n: usize = v.len();
    let mut delimiter: Vec<char> = Vec::new();
    delimiter.push('{');
    delimiter.push('{');
    assert(delimiter@ == open_delimiter());
    assert(v@.subrange(0, n as int) == v@);
    let mut p: usize = match find_from(&v, 0, n, &delimiter) {
        Some(i) => {
            proof {
                lemma_first_match(v@, open_delimiter());
            }
            i + 2
        },
        None => {
            assert(old(out)@ + Seq::<char>::empty() == old(out)@);
            return ;
        },
    };
    let ghost start = p;
    loop
        invariant_except_break
            old(out)@ + segments_markup(v@.skip(start as int)) == out@ + segments_markup(
                v@.skip(p as int),
            ),
        invariant
            p <= n == v.len(),
            delimiter@ == open_delimiter(),
        ensures
            out@ == old(out)@ + segments_markup(v@.skip(start as int)),
        decreases n - p,
    {
        let ghost rest = v@.skip(p as int);
        assert(v@.subrange(p as int, n as int) == rest);
        match find_from(&v, p, n, &delimiter) {
            Some(i) => {
                proof {
                    lemma_first_match(rest, open_delimiter());
                }
                write_segment(&v, p, i, out);
                assert(v@.subrange(p as int, i as int) == rest.take(i - p));
                assert(rest.skip(i - p + 2) == v@.skip(i + 2));
                p = i + 2;
            },
            None => {
                write_segment(&v, p, n, out);
                break ;
            },
        }
    }
}

/// Writes the markup of the shortcodes of `text` to `out`. Writing to a
/// string cannot fail.
pub fn write_shortcode(text: &str, out: &mut String) -> (r: Result<(), RenderError>)
    ensures
        r is Ok,
        final(out)@ == old(out)@ + shortcodes_markup(text@),
{
    let mut buf: Vec<char> = Vec::new();
    push_shortcodes(text, &mut buf);
    let markup = to_text(&buf);
    out.append(markup.as_str());
    Ok(())
}

} // verus!
