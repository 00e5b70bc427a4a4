//! Character-level text primitives shared by the renderer, the mini-parsers
//! and the serializer.
//!
//! Text is modelled as `Seq<char>`. Executable code works on `Vec<char>`
//! buffers and on windows `[lo, hi)` into them, so that trimming and
//! splitting never copy.

use vstd::prelude::*;

verus! {

/// Appends one character to a `String`.
///
/// Trusted: calls `String::push`. The contract claims that the text after the
/// call is the text before it followed by `c`.
#[verifier::external_body]
fn string_push(s: &mut String, c: char)
    ensures
        final(s)@ == old(s)@.push(c),
{
    s.push(c)
}

/// The characters of `s`, in order.
pub fn to_chars(s: &str) -> (v: Vec<char>)
    ensures
        v@ == s@,
{
    let mut v: Vec<char> = Vec::new();
    for c in it: s.chars()
        invariant
            it.seq() == s@,
            v@ == it.seq().take(it.index()),
    {
        v.push(c);
    }
    v
}

/// The string made of the characters of `v`, in order.
pub fn to_text(v: &Vec<char>) -> (s: String)
    ensures
        s@ == v@,
{
    let mut s = String::new();
    let mut i: usize = 0;
    while i < v.len()
        invariant
            i <= v.len(),
            s@ == v@.take(i as int),
        decreases v.len() - i,
    {
        string_push(&mut s, v[i]);
        i += 1;
    }
    s
}

/// Appends the characters of `s` to `buf`.
pub fn push_str(buf: &mut Vec<char>, s: &str)
    ensures
        final(buf)@ == old(buf)@ + s@,
{
    for c in it: s.chars()
        invariant
            it.seq() == s@,
            buf@ == old(buf)@ + it.seq().take(it.index()),
    {
        buf.push(c);
    }
}

/// Appends the characters `v[lo..hi]` to `buf`.
pub fn push_range(buf: &mut Vec<char>, v: &Vec<char>, lo: usize, hi: usize)
    requires
        lo <= hi <= v.len(),
    ensures
        final(buf)@ == old(buf)@ + v@.subrange(lo as int, hi as int),
{
    let mut i: usize = lo;
    while i < hi
        invariant
            lo <= i <= hi <= v.len(),
            buf@ == old(buf)@ + v@.subrange(lo as int, i as int),
        decreases hi - i,
    {
        buf.push(v[i]);
        i += 1;
    }
}

/// Appends all of `v` to `buf`.
pub fn push_chars(buf: &mut Vec<char>, v: &Vec<char>)
    ensures
        final(buf)@ == old(buf)@ + v@,
{
    push_range(buf, v, 0, v.len());
    assert(v@.subrange(0, v.len() as int) == v@);
}

/// Whether `a` and `s` hold the same characters.
pub fn chars_eq(a: &Vec<char>, s: &str) -> (r: bool)
    ensures
        r == (a@ == s@),
{
    let b = to_chars(s);
    if a.len() != b.len() {
        return false;
    }
    let mut i: usize = 0;
    while i < a.len()
        invariant
            i <= a.len(),
            a.len() == b.len(),
            b@ == s@,
            a@.take(i as int) == b@.take(i as int),
        decreases a.len() - i,
    {
        if a[i] != b[i] {
            assert(a@[i as int] != s@[i as int]);
            return false;
        }
        assert(a@.take(i + 1) == a@.take(i as int).push(a@[i as int]));
        assert(b@.take(i + 1) == b@.take(i as int).push(b@[i as int]));
        i += 1;
    }
    assert(a@.take(a.len() as int) == a@);
    assert(b@.take(b.len() as int) == b@);
    true
}

/// Whether two strings hold the same characters.
pub fn str_eq(a: &str, b: &str) -> (r: bool)
    ensures
        r == (a@ == b@),
{
    let v = to_chars(a);
    chars_eq(&v, b)
}

/// `pat` occurs in `s` at position `at`.
pub open spec fn occurs_at(s: Seq<char>, at: int, pat: Seq<char>) -> bool {
    0 <= at && at + pat.len() <= s.len() && s.subrange(at, at + pat.len()) == pat
}

/// Whether `pat` occurs at position `at` of the window of `v` that ends at `hi`.
pub fn matches_at(v: &Vec<char>, at: usize, hi: usize, pat: &Vec<char>) -> (r: bool)
    requires
        at <= hi <= v.len(),
    ensures
        r == occurs_at(v@.take(hi as int), at as int, pat@),
{
    if pat.len() > hi - at {
        return false;
    }
    let ghost w = v@.take(hi as int);
    let mut k: usize = 0;
    while k < pat.len()
        invariant
            k <= pat.len(),
            at + pat.len() <= hi <= v.len(),
            w == v@.take(hi as int),
            w.subrange(at as int, at + k) == pat@.take(k as int),
        decreases pat.len() - k,
    {
        if v[at + k] != pat[k] {
            assert(w.subrange(at as int, at + pat.len())[k as int] != pat@[k as int]);
            return false;
        }
        assert(w.subrange(at as int, at + k + 1) == w.subrange(at as int, at + k).push(
            w[at + k],
        ));
        assert(pat@.take(k + 1) == pat@.take(k as int).push(pat@[k as int]));
        k += 1;
    }
    assert(pat@.take(pat.len() as int) == pat@);
    true
}

/// Whether `pat` is a prefix of `s`.
pub open spec fn starts_with(s: Seq<char>, pat: Seq<char>) -> bool {
    occurs_at(s, 0, pat)
}

/// Whether `pat` is a suffix of `s`.
pub open spec fn ends_with(s: Seq<char>, pat: Seq<char>) -> bool {
    occurs_at(s, s.len() - pat.len(), pat)
}

/// Whether the string `pat` is a prefix of `v`.
pub fn has_prefix(v: &Vec<char>, pat: &str) -> (r: bool)
    ensures
        r == starts_with(v@, pat@),
{
    let p = to_chars(pat);
    assert(v@.take(v.len() as int) == v@);
    matches_at(v, 0, v.len(), &p)
}

/// Whether the string `pat` is a suffix of `v`.
pub fn has_suffix(v: &Vec<char>, pat: &str) -> (r: bool)
    ensures
        r == ends_with(v@, pat@),
{
    let p = to_chars(pat);
    if p.len() > v.len() {
        return false;
    }
    assert(v@.take(v.len() as int) == v@);
    matches_at(v, v.len() - p.len(), v.len(), &p)
}

/// Position of the first occurrence of `pat` in `s`, if there is one.
pub open spec fn first_match(s: Seq<char>, pat: Seq<char>) -> Option<int>
    decreases s.len(),
{
    if starts_with(s, pat) {
        Some(0)
    } else if s.len() == 0 {
        None
    } else {
        match first_match(s.drop_first(), pat) {
            Some(i) => Some(i + 1),
            None => None,
        }
    }
}

/// What `first_match` finds is an occurrence, and the earliest one.
pub proof fn lemma_first_match(s: Seq<char>, pat: Seq<char>)
    ensures
        match first_match(s, pat) {
            Some(i) => occurs_at(s, i, pat) && forall|j: int| 0 <= j < i ==> !occurs_at(s, j, pat),
            None => forall|j: int| !occurs_at(s, j, pat),
        },
    decreases s.len(),
{
    if starts_with(s, pat) {
    } else if s.len() == 0 {
        assert forall|j: int| !occurs_at(s, j, pat) by {
            if occurs_at(s, j, pat) {
                assert(j == 0);
            }
        }
    } else {
        let t = s.drop_first();
        lemma_first_match(t, pat);
        assert forall|j: int| occurs_at(s, j + 1, pat) == occurs_at(t, j, pat) by {
            if 0 <= j && j + 1 + pat.len() <= s.len() {
                assert(s.subrange(j + 1, j + 1 + pat.len()) == t.subrange(j, j + pat.len()));
            }
        }
        match first_match(t, pat) {
            Some(i) => {
                assert(occurs_at(s, i + 1, pat));
                assert forall|j: int| 0 <= j < i + 1 implies !occurs_at(s, j, pat) by {
                    if j > 0 {
                        assert(occurs_at(s, (j - 1) + 1, pat) == occurs_at(t, j - 1, pat));
                    }
                }
            },
            None => {
                assert forall|j: int| !occurs_at(s, j, pat) by {
                    if j != 0 {
                        assert(occurs_at(s, (j - 1) + 1, pat) == occurs_at(t, j - 1, pat));
                    }
                }
            },
        }
    }
}

/// An occurrence with none before it is the one `first_match` finds.
pub proof fn lemma_first_match_is(s: Seq<char>, pat: Seq<char>, i: int)
    requires
        occurs_at(s, i, pat),
        forall|j: int| 0 <= j < i ==> !occurs_at(s, j, pat),
    ensures
        first_match(s, pat) == Some(i),
{
    lemma_first_match(s, pat);
}

/// Where no position holds an occurrence, `first_match` finds none.
pub proof fn lemma_first_match_none(s: Seq<char>, pat: Seq<char>)
    requires
        forall|j: int| 0 <= j <= s.len() ==> !occurs_at(s, j, pat),
    ensures
        first_match(s, pat) is None,
{
    lemma_first_match(s, pat);
    if let Some(i) = first_match(s, pat) {
        assert(occurs_at(s, i, pat));
    }
}

/// Position in `v` of the first occurrence of `pat` in the window `[lo, hi)`.
pub fn find_from(v: &Vec<char>, lo: usize, hi: usize, pat: &Vec<char>) -> (r: Option<usize>)
    requires
        lo <= hi <= v.len(),
    ensures
        match r {
            Some(i) => lo <= i <= hi && first_match(v@.subrange(lo as int, hi as int), pat@)
                == Some(i - lo),
            None => first_match(v@.subrange(lo as int, hi as int), pat@) is None,
        },
{
    let ghost w = v@.subrange(lo as int, hi as int);
    let mut i: usize = lo;
    while i <= hi
        invariant
            lo <= i <= hi + 1,
            hi <= v.len(),
            w == v@.subrange(lo as int, hi as int),
            forall|j: int| 0 <= j < i - lo ==> !occurs_at(w, j, pat@),
        decreases hi + 1 - i,
    {
        let found = matches_at(v, i, hi, pat);
        proof {
            let full = v@.take(hi as int);
            if i + pat@.len() <= hi {
                assert(full.subrange(i as int, i + pat@.len()) == w.subrange(
                    i - lo,
                    i - lo + pat@.len(),
                ));
            }
            assert(found == occurs_at(w, i - lo, pat@));
        }
        if found {
            proof {
                lemma_first_match_is(w, pat@, i - lo);
            }
            return Some(i);
        }
        if i == hi {
            proof {
                lemma_first_match_none(w, pat@);
            }
            return None;
        }
        i += 1;
    }
    proof {
        lemma_first_match_none(w, pat@);
    }
    None
}

/// The characters that Unicode gives the property `White_Space`.
pub open spec fn is_space(c: char) -> bool {
    let u = c as u32;
    (0x09 <= u <= 0x0D) || u == 0x20 || u == 0x85 || u == 0xA0 || u == 0x1680 || (0x2000 <= u
        <= 0x200A) || u == 0x2028 || u == 0x2029 || u == 0x202F || u == 0x205F || u == 0x3000
}

/// Whether `c` is a white-space character.
pub fn is_whitespace(c: char) -> (r: bool)
    ensures
        r == is_space(c),
{
    let u: u32 = c as u32;
    (0x09 <= u && u <= 0x0D) || u == 0x20 || u == 0x85 || u == 0xA0 || u == 0x1680 || (0x2000
        <= u && u <= 0x200A) || u == 0x2028 || u == 0x2029 || u == 0x202F || u == 0x205F || u
        == 0x3000
}

/// Number of white-space characters at the start of `s`.
pub open spec fn leading_spaces(s: Seq<char>) -> nat
    decreases s.len(),
{
    if s.len() > 0 && is_space(s[0]) {
        1 + leading_spaces(s.drop_first())
    } else {
        0
    }
}

/// Number of white-space characters at the end of `s`.
pub open spec fn trailing_spaces(s: Seq<char>) -> nat
    decreases s.len(),
{
    if s.len() > 0 && is_space(s.last()) {
        1 + trailing_spaces(s.drop_last())
    } else {
        0
    }
}

/// `s` without its leading white space.
pub open spec fn trim_start(s: Seq<char>) -> Seq<char> {
    s.skip(leading_spaces(s) as int)
}

/// `s` without its trailing white space.
pub open spec fn trim_end(s: Seq<char>) -> Seq<char> {
    s.take(s.len() - trailing_spaces(s))
}

/// `s` without leading and trailing white space.
pub open spec fn trim(s: Seq<char>) -> Seq<char> {
    trim_end(trim_start(s))
}

/// The white space at either end of a text is no longer than the text.
pub proof fn lemma_spaces_bounded(s: Seq<char>)
    ensures
        leading_spaces(s) <= s.len(),
        trailing_spaces(s) <= s.len(),
    decreases s.len(),
{
    if s.len() > 0 {
        lemma_spaces_bounded(s.drop_first());
        lemma_spaces_bounded(s.drop_last());
    }
}

/// First position of the window `[lo, hi)` of `v` that holds no leading white space.
pub fn skip_spaces(v: &Vec<char>, lo: usize, hi: usize) -> (r: usize)
    requires
        lo <= hi <= v.len(),
    ensures
        lo <= r <= hi,
        r == lo + leading_spaces(v@.subrange(lo as int, hi as int)),
        v@.subrange(r as int, hi as int) == trim_start(v@.subrange(lo as int, hi as int)),
{
    let mut i: usize = lo;
    while i < hi && is_whitespace(v[i])
        invariant
            lo <= i <= hi <= v.len(),
            leading_spaces(v@.subrange(lo as int, hi as int)) == (i - lo) + leading_spaces(
                v@.subrange(i as int, hi as int),
            ),
        decreases hi - i,
    {
        assert(v@.subrange(i as int, hi as int).drop_first() == v@.subrange(i + 1, hi as int));
        i += 1;
    }
    assert(v@.subrange(lo as int, hi as int).skip(i - lo) == v@.subrange(i as int, hi as int));
    i
}

/// End of the window `[lo, hi)` of `v` once its trailing white space is dropped.
pub fn drop_spaces(v: &Vec<char>, lo: usize, hi: usize) -> (r: usize)
    requires
        lo <= hi <= v.len(),
    ensures
        lo <= r <= hi,
        r == hi - trailing_spaces(v@.subrange(lo as int, hi as int)),
        v@.subrange(lo as int, r as int) == trim_end(v@.subrange(lo as int, hi as int)),
{
    let mut i: usize = hi;
    while i > lo && is_whitespace(v[i - 1])
        invariant
            lo <= i <= hi <= v.len(),
            trailing_spaces(v@.subrange(lo as int, hi as int)) == (hi - i) + trailing_spaces(
                v@.subrange(lo as int, i as int),
            ),
        decreases i - lo,
    {
        assert(v@.subrange(lo as int, i as int).drop_last() == v@.subrange(lo as int, i - 1));
        i -= 1;
    }
    assert(v@.subrange(lo as int, hi as int).take(i - lo) == v@.subrange(lo as int, i as int));
    i
}

/// `s` with every leading repetition of `pat` removed.
pub open spec fn strip_leading(s: Seq<char>, pat: Seq<char>) -> Seq<char>
    decreases s.len(),
{
    if pat.len() > 0 && starts_with(s, pat) {
        strip_leading(s.skip(pat.len() as int), pat)
    } else {
        s
    }
}

/// `s` with every trailing repetition of `pat` removed.
pub open spec fn strip_trailing(s: Seq<char>, pat: Seq<char>) -> Seq<char>
    decreases s.len(),
{
    if pat.len() > 0 && ends_with(s, pat) {
        strip_trailing(s.take(s.len() - pat.len()), pat)
    } else {
        s
    }
}

/// Start of the window `[lo, hi)` of `v` once leading repetitions of `pat` are dropped.
pub fn skip_repeated(v: &Vec<char>, lo: usize, hi: usize, pat: &Vec<char>) -> (r: usize)
    requires
        lo <= hi <= v.len(),
    ensures
        lo <= r <= hi,
        v@.subrange(r as int, hi as int) == strip_leading(v@.subrange(lo as int, hi as int), pat@),
{
    if pat.len() == 0 {
        return lo;
    }
    let mut i: usize = lo;
    loop
        invariant
            lo <= i <= hi <= v.len(),
            pat.len() > 0,
            strip_leading(v@.subrange(lo as int, hi as int), pat@) == strip_leading(
                v@.subrange(i as int, hi as int),
                pat@,
            ),
        decreases hi - i,
    {
        let found = matches_at(v, i, hi, pat);
        proof {
            let w = v@.subrange(i as int, hi as int);
            if i + pat@.len() <= hi {
                assert(v@.take(hi as int).subrange(i as int, i + pat@.len()) == w.subrange(
                    0,
                    pat@.len() as int,
                ));
            }
            assert(found == starts_with(w, pat@));
            if found {
                assert(w.skip(pat@.len() as int) == v@.subrange(i + pat@.len(), hi as int));
            }
        }
        if !found {
            return i;
        }
        i += pat.len();
    }
}

/// End of the window `[lo, hi)` of `v` once trailing repetitions of `pat` are dropped.
pub fn drop_repeated(v: &Vec<char>, lo: usize, hi: usize, pat: &Vec<char>) -> (r: usize)
    requires
        lo <= hi <= v.len(),
    ensures
        lo <= r <= hi,
        v@.subrange(lo as int, r as int) == strip_trailing(v@.subrange(lo as int, hi as int), pat@),
{
    if pat.len() == 0 {
        return hi;
    }
    let mut i: usize = hi;
    loop
        invariant
            lo <= i <= hi <= v.len(),
            pat.len() > 0,
            strip_trailing(v@.subrange(lo as int, hi as int), pat@) == strip_trailing(
                v@.subrange(lo as int, i as int),
                pat@,
            ),
        decreases i - lo,
    {
        if pat.len() > i - lo {
            return i;
        }
        let found = matches_at(v, i - pat.len(), i, pat);
        proof {
            let w = v@.subrange(lo as int, i as int);
            assert(v@.take(i as int).subrange(i - pat@.len(), i as int) == w.subrange(
                w.len() - pat@.len(),
                w.len() as int,
            ));
            assert(found == ends_with(w, pat@));
            if found {
                assert(w.take(w.len() - pat@.len()) == v@.subrange(lo as int, i - pat@.len()));
            }
        }
        if !found {
            return i;
        }
        i -= pat.len();
    }
}

} // verus!
