//! Tag balance of rendered text.
//!
//! `scan` reads a text as a tokenizer does: it keeps the stack of the
//! elements that are open, pushes at an opening tag and pops at a closing
//! tag, which must close the innermost open element. A text is balanced
//! when the stack is empty at its end.

use vstd::prelude::*;
use crate::markup::{close_markup, emit, open_markup, stack_after, with_break, Tag, Token};
use crate::text::{first_match, lemma_first_match, occurs_at, starts_with};

verus! {

/// Whether an element of this name has no content and no closing tag.
pub open spec fn void_name(name: Seq<char>) -> bool {
    name == seq!['h', 'r'] || name == seq!['b', 'r'] || name == seq!['i', 'm', 'g']
}

/// The name of a tag: what stands before its first space.
pub open spec fn tag_name(inner: Seq<char>) -> Seq<char> {
    match first_match(inner, seq![' ']) {
        Some(i) => inner.take(i),
        None => inner,
    }
}

/// The stack of open elements after a tag, where `inner` is what stands
/// between its angle brackets; `None` where the tag closes an element
/// that is not the innermost open one.
pub open spec fn scan_tag(inner: Seq<char>, stack: Seq<Seq<char>>) -> Option<Seq<Seq<char>>> {
    if inner.len() > 0 && inner[0] == '/' {
        if stack.len() > 0 && stack.last() == inner.skip(1) {
            Some(stack.drop_last())
        } else {
            None
        }
    } else if void_name(tag_name(inner)) {
        Some(stack)
    } else {
        Some(stack.push(tag_name(inner)))
    }
}

/// The start of a comment.
pub open spec fn comment_open() -> Seq<char> {
    seq!['<', '!', '-', '-']
}

/// The end of a comment.
pub open spec fn comment_close() -> Seq<char> {
    seq!['-', '-', '>']
}

/// The stack of open elements after the text `s`, read from the stack
/// `stack`; `None` where a tag or a comment has no end, or a closing tag
/// does not close the innermost open element.
pub open spec fn scan(s: Seq<char>, stack: Seq<Seq<char>>) -> Option<Seq<Seq<char>>>
    decreases s.len(),
{
    if s.len() == 0 {
        Some(stack)
    } else if s[0] != '<' {
        scan(s.skip(1), stack)
    } else if starts_with(s, comment_open()) {
        match first_match(s.skip(4), comment_close()) {
            Some(k) => {
                proof {
                    lemma_first_match(s.skip(4), comment_close());
                }
                scan(s.skip(4 + k + 3), stack)
            },
            None => None,
        }
    } else {
        match first_match(s, seq!['>']) {
            Some(e) => {
                proof {
                    lemma_first_match(s, seq!['>']);
                }
                match scan_tag(s.subrange(1, e), stack) {
                    Some(next) => scan(s.skip(e + 1), next),
                    None => None,
                }
            },
            None => None,
        }
    }
}

/// Every tag that the text opens is closed, innermost first.
pub open spec fn tag_balanced(s: Seq<char>) -> bool {
    scan(s, Seq::empty()) == Some(Seq::<Seq<char>>::empty())
}

/// A text that leaves every stack as it finds it: it holds no markup, or
/// markup that is balanced in itself.
pub open spec fn neutral(text: Seq<char>) -> bool {
    forall|stack: Seq<Seq<char>>| scan(text, stack) == Some(stack)
}

/// Attributes that can stand in an opening tag: no angle brackets, and a
/// space at the start.
pub open spec fn plain_attrs(attrs: Seq<char>) -> bool {
    (attrs.len() == 0 || attrs[0] == ' ') && forall|i: int|
        0 <= i < attrs.len() ==> attrs[i] != '<' && attrs[i] != '>'
}

/// The pieces that the tokens write as they stand do not disturb the
/// balance: the attributes of opening tags are plain, and the texts are
/// neutral.
pub open spec fn pieces_plain(tokens: Seq<Token>) -> bool {
    forall|i: int|
        0 <= i < tokens.len() ==> match #[trigger] tokens[i] {
            Token::Open { tag, attrs } => plain_attrs(attrs),
            Token::Text { chars } => neutral(chars),
            _ => true,
        }
}

/// The names of a stack of elements.
pub open spec fn names(stack: Seq<Tag>) -> Seq<Seq<char>> {
    Seq::new(stack.len(), |i: int| stack[i].name())
}

/// An occurrence in a text is the first occurrence in every longer text.
pub proof fn lemma_first_match_prefix(x: Seq<char>, y: Seq<char>, pat: Seq<char>)
    requires
        first_match(x, pat) is Some,
    ensures
        first_match(x + y, pat) == first_match(x, pat),
{
    let k = first_match(x, pat)->0;
    lemma_first_match(x, pat);
    lemma_first_match(x + y, pat);
    assert((x + y).subrange(k, k + pat.len()) == x.subrange(k, k + pat.len()));
    assert(occurs_at(x + y, k, pat));
    match first_match(x + y, pat) {
        Some(j) => {
            if j < k {
                assert((x + y).subrange(j, j + pat.len()) == x.subrange(j, j + pat.len()));
                assert(occurs_at(x, j, pat));
            }
        },
        None => {},
    }
}

/// Reading a text and then another is reading the two as one text.
#[verifier::rlimit(40)]
pub proof fn lemma_scan_append(a: Seq<char>, b: Seq<char>, stack: Seq<Seq<char>>)
    requires
        scan(a, stack) is Some,
    ensures
        scan(a + b, stack) == scan(b, scan(a, stack)->0),
    decreases a.len(),
{
    let s = a + b;
    if a.len() == 0 {
        assert(s == b);
    } else if a[0] != '<' {
        assert(s.skip(1) == a.skip(1) + b);
        lemma_scan_append(a.skip(1), b, stack);
    } else if starts_with(a, comment_open()) {
        assert(s.subrange(0, 4) == a.subrange(0, 4));
        let k = first_match(a.skip(4), comment_close())->0;
        lemma_first_match(a.skip(4), comment_close());
        assert(s.skip(4) == a.skip(4) + b);
        lemma_first_match_prefix(a.skip(4), b, comment_close());
        assert(s.skip(4 + k + 3) == a.skip(4 + k + 3) + b);
        lemma_scan_append(a.skip(4 + k + 3), b, stack);
    } else {
        let e = first_match(a, seq!['>'])->0;
        lemma_first_match(a, seq!['>']);
        lemma_first_match_prefix(a, b, seq!['>']);
        assert(a.subrange(e, e + 1)[0] == a[e]);
        assert(!starts_with(s, comment_open())) by {
            if starts_with(s, comment_open()) {
                assert(s.subrange(0, 4) == comment_open());
                if a.len() >= 4 {
                    assert(a.subrange(0, 4) == s.subrange(0, 4));
                } else {
                    assert(a[e] == s[e]);
                    assert(s[e] == s.subrange(0, 4)[e]);
                }
            }
        }
        assert(s.subrange(1, e) == a.subrange(1, e));
        assert(s.skip(e + 1) == a.skip(e + 1) + b);
        lemma_scan_append(a.skip(e + 1), b, scan_tag(a.subrange(1, e), stack)->0);
    }
}

/// What is known of the names of the elements: none is empty, none holds
/// an angle bracket, a space, an exclamation mark or a slash, and none is
/// the name of an element without content.
#[verifier::rlimit(40)]
pub proof fn lemma_tag_names(tag: Tag)
    ensures
        plain_name(tag.name()),
        !void_name(tag.name()),
{
    reveal_strlit("html");
    reveal_strlit("head");
    reveal_strlit("title");
    reveal_strlit("body");
    reveal_strlit("div");
    reveal_strlit("ul");
    reveal_strlit("li");
    reveal_strlit("p");
    reveal_strlit("h1");
    reveal_strlit("h2");
    reveal_strlit("h3");
    reveal_strlit("h4");
    reveal_strlit("a");
    reveal_strlit("span");
    reveal_strlit("strong");
    reveal_strlit("em");
    reveal_strlit("del");
    reveal_strlit("sup");
    reveal_strlit("sub");
    reveal_strlit("table");
    reveal_strlit("tbody");
    reveal_strlit("tr");
    reveal_strlit("td");
    let n = tag.name();
    if void_name(n) {
        assert(n.len() == 2 || n.len() == 3);
        assert(n[0] == 'h' || n[0] == 'b' || n[0] == 'i');
        assert(n[1] == 'r' || n[1] == 'm');
    }
}

/// A name that can stand in a tag: not empty, without angle brackets,
/// spaces, exclamation marks and slashes.
pub open spec fn plain_name(name: Seq<char>) -> bool {
    name.len() > 0 && forall|i: int|
        0 <= i < name.len() ==> {
            let c = #[trigger] name[i];
            c != '<' && c != '>' && c != ' ' && c != '!' && c != '/'
        }
}

/// In a text that ends with the only `>` it holds, the first `>` is the
/// last character.
pub proof fn lemma_closing_bracket(s: Seq<char>)
    requires
        s.len() > 0,
        s.last() == '>',
        forall|i: int| 0 <= i < s.len() - 1 ==> s[i] != '>',
    ensures
        first_match(s, seq!['>']) == Some(s.len() - 1),
{
    let e = s.len() - 1;
    lemma_first_match(s, seq!['>']);
    assert(s.subrange(e, e + 1) == seq!['>']);
    assert(occurs_at(s, e, seq!['>']));
    match first_match(s, seq!['>']) {
        Some(j) => {
            assert(s.subrange(j, j + 1)[0] == s[j]);
        },
        None => {},
    }
}

/// The name of a tag that holds a plain name and plain attributes.
pub proof fn lemma_tag_name(name: Seq<char>, attrs: Seq<char>)
    requires
        plain_name(name),
        plain_attrs(attrs),
    ensures
        tag_name(name + attrs) == name,
{
    let inner = name + attrs;
    let n = name.len() as int;
    lemma_first_match(inner, seq![' ']);
    match first_match(inner, seq![' ']) {
        Some(i) => {
            assert(inner.subrange(i, i + 1)[0] == inner[i]);
            assert(inner[i] == ' ');
            if i < n {
                assert(inner[i] == name[i]);
            } else if i > n {
                assert(inner.subrange(n, n + 1) == seq![' ']);
                assert(occurs_at(inner, n, seq![' ']));
            }
            assert(inner.take(i) == name);
        },
        None => {
            if attrs.len() > 0 {
                assert(inner.subrange(n, n + 1) == seq![' ']);
                assert(occurs_at(inner, n, seq![' ']));
            }
            assert(inner == name);
        },
    }
}

/// An opening tag with a plain name and plain attributes puts its element
/// on the stack.
#[verifier::rlimit(40)]
pub proof fn lemma_scan_open_named(name: Seq<char>, attrs: Seq<char>, stack: Seq<Seq<char>>)
    requires
        plain_name(name),
        !void_name(name),
        plain_attrs(attrs),
    ensures
        scan(seq!['<'] + name + attrs + seq!['>'], stack) == Some(stack.push(name)),
{
    let s = seq!['<'] + name + attrs + seq!['>'];
    let e: int = (1 + name.len() + attrs.len()) as int;
    assert(s.len() == e + 1);
    assert(s[0] == '<');
    assert(s[1] == name[0]);
    assert forall|i: int| 0 <= i < s.len() - 1 implies s[i] != '>' by {
        if i >= 1 {
            if i < 1 + name.len() {
                assert(s[i] == name[i - 1]);
            } else {
                assert(s[i] == attrs[i - 1 - name.len()]);
            }
        }
    }
    assert(!starts_with(s, comment_open())) by {
        if starts_with(s, comment_open()) {
            assert(s.subrange(0, 4)[1] == '!');
        }
    }
    lemma_closing_bracket(s);
    let inner = s.subrange(1, e);
    assert(inner == name + attrs);
    lemma_tag_name(name, attrs);
    assert(inner[0] == name[0]);
    assert(s.skip(e + 1) == Seq::<char>::empty());
    assert(scan(s.skip(e + 1), stack.push(name)) == Some(stack.push(name)));
}

/// A closing tag with a plain name takes its element off the stack.
#[verifier::rlimit(40)]
pub proof fn lemma_scan_close_named(name: Seq<char>, stack: Seq<Seq<char>>)
    requires
        plain_name(name),
        stack.len() > 0,
        stack.last() == name,
    ensures
        scan(seq!['<', '/'] + name + seq!['>'], stack) == Some(stack.drop_last()),
{
    let s = seq!['<', '/'] + name + seq!['>'];
    let e: int = (2 + name.len()) as int;
    assert(s.len() == e + 1);
    assert(s[0] == '<');
    assert(s[1] == '/');
    assert forall|i: int| 0 <= i < s.len() - 1 implies s[i] != '>' by {
        if i >= 2 {
            assert(s[i] == name[i - 2]);
        }
    }
    assert(!starts_with(s, comment_open())) by {
        if starts_with(s, comment_open()) {
            assert(s.subrange(0, 4)[1] == '!');
        }
    }
    lemma_closing_bracket(s);
    let inner = s.subrange(1, e);
    assert(inner[0] == '/');
    assert(inner.skip(1) == name);
    assert(s.skip(e + 1) == Seq::<char>::empty());
    assert(scan(s.skip(e + 1), stack.drop_last()) == Some(stack.drop_last()));
}

/// An opening tag with plain attributes puts its element on the stack.
pub proof fn lemma_scan_open(tag: Tag, attrs: Seq<char>, stack: Seq<Seq<char>>)
    requires
        plain_attrs(attrs),
    ensures
        scan(open_markup(tag, attrs), stack) == Some(stack.push(tag.name())),
{
    lemma_tag_names(tag);
    lemma_scan_open_named(tag.name(), attrs, stack);
}

/// A closing tag takes its element off the stack.
pub proof fn lemma_scan_close(tag: Tag, stack: Seq<Seq<char>>)
    requires
        stack.len() > 0,
        stack.last() == tag.name(),
    ensures
        scan(close_markup(tag), stack) == Some(stack.drop_last()),
{
    lemma_tag_names(tag);
    lemma_scan_close_named(tag.name(), stack);
}

/// Ending the line does not disturb the balance.
pub proof fn lemma_scan_break(out: Seq<char>, stack: Seq<Seq<char>>)
    requires
        scan(out, Seq::empty()) == Some(stack),
    ensures
        scan(with_break(out), Seq::empty()) == Some(stack),
{
    if !(out.len() > 0 && out.last() == '\n') {
        let piece = seq!['\n'];
        assert(piece.skip(1) == Seq::<char>::empty());
        assert(scan(piece.skip(1), stack) == Some(stack));
        assert(piece[0] != '<');
        assert(scan(piece, stack) == Some(stack));
        lemma_scan_append(out, piece, Seq::empty());
        assert(out + piece == out.push('\n'));
    }
}

/// The text of tokens whose pieces are plain is read as the tokens are
/// replayed: after it, the elements that are open are those that the
/// tokens leave open.
#[verifier::rlimit(40)]
pub proof fn lemma_scan_tokens(tokens: Seq<Token>)
    requires
        pieces_plain(tokens),
        stack_after(Seq::empty(), tokens) is Some,
    ensures
        scan(emit(Seq::empty(), tokens), Seq::empty()) == Some(
            names(stack_after(Seq::empty(), tokens)->0),
        ),
    decreases tokens.len(),
{
    if tokens.len() == 0 {
        assert(names(Seq::<Tag>::empty()) == Seq::<Seq<char>>::empty());
    } else {
        let before = tokens.drop_last();
        let token = tokens.last();
        assert(pieces_plain(before)) by {
            assert forall|i: int| 0 <= i < before.len() implies match #[trigger] before[i] {
                Token::Open { tag, attrs } => plain_attrs(attrs),
                Token::Text { chars } => neutral(chars),
                _ => true,
            } by {
                assert(before[i] == tokens[i]);
            }
        }
        lemma_scan_tokens(before);
        let out = emit(Seq::empty(), before);
        let stack = stack_after(Seq::empty(), before)->0;
        assert(tokens[tokens.len() - 1] == token);
        match token {
            Token::Open { tag, attrs } => {
                lemma_scan_open(tag, attrs, names(stack));
                lemma_scan_append(out, open_markup(tag, attrs), Seq::empty());
                assert(names(stack.push(tag)) == names(stack).push(tag.name()));
            },
            Token::Close { tag } => {
                assert(names(stack).last() == tag.name());
                lemma_scan_close(tag, names(stack));
                lemma_scan_append(out, close_markup(tag), Seq::empty());
                assert(names(stack.drop_last()) == names(stack).drop_last());
            },
            Token::Text { chars } => {
                assert(scan(chars, names(stack)) == Some(names(stack)));
                lemma_scan_append(out, chars, Seq::empty());
            },
            Token::Break => {
                lemma_scan_break(out, names(stack));
            },
        }
    }
}

/// Tag balance: the text of tokens that are well nested, and whose pieces
/// are plain, is balanced.
pub proof fn lemma_balanced(tokens: Seq<Token>)
    requires
        pieces_plain(tokens),
        crate::markup::well_nested(tokens),
    ensures
        tag_balanced(emit(Seq::empty(), tokens)),
{
    lemma_scan_tokens(tokens);
    assert(names(Seq::<Tag>::empty()) == Seq::<Seq<char>>::empty());
}

/// A text without angle brackets.
pub open spec fn plain_text(s: Seq<char>) -> bool {
    forall|i: int| 0 <= i < s.len() ==> s[i] != '<' && s[i] != '>'
}

/// A text without angle brackets is neutral.
pub proof fn lemma_plain_neutral(s: Seq<char>)
    requires
        plain_text(s),
    ensures
        neutral(s),
    decreases s.len(),
{
    if s.len() > 0 {
        assert(plain_text(s.skip(1))) by {
            assert forall|i: int| 0 <= i < s.skip(1).len() implies s.skip(1)[i] != '<' && s.skip(
                1,
            )[i] != '>' by {
                assert(s.skip(1)[i] == s[i + 1]);
            }
        }
        lemma_plain_neutral(s.skip(1));
        assert(s[0] != '<');
    }
    assert forall|stack: Seq<Seq<char>>| scan(s, stack) == Some(stack) by {
        if s.len() > 0 {
            assert(scan(s.skip(1), stack) == Some(stack));
        }
    }
}

/// Two neutral texts make a neutral text.
pub proof fn lemma_neutral_concat(a: Seq<char>, b: Seq<char>)
    requires
        neutral(a),
        neutral(b),
    ensures
        neutral(a + b),
{
    assert forall|stack: Seq<Seq<char>>| scan(a + b, stack) == Some(stack) by {
        assert(scan(a, stack) == Some(stack));
        lemma_scan_append(a, b, stack);
        assert(scan(b, stack) == Some(stack));
    }
}

/// Two texts without angle brackets make a text without angle brackets.
pub proof fn lemma_plain_concat(a: Seq<char>, b: Seq<char>)
    requires
        plain_text(a),
        plain_text(b),
    ensures
        plain_text(a + b),
{
    assert forall|i: int| 0 <= i < (a + b).len() implies (a + b)[i] != '<' && (a + b)[i]
        != '>' by {
        if i < a.len() {
            assert((a + b)[i] == a[i]);
        } else {
            assert((a + b)[i] == b[i - a.len()]);
        }
    }
}

/// Plain attributes followed by plain attributes are plain attributes.
pub proof fn lemma_attrs_concat(a: Seq<char>, b: Seq<char>)
    requires
        plain_attrs(a),
        plain_attrs(b),
    ensures
        plain_attrs(a + b),
{
    assert(plain_text(a) && plain_text(b));
    lemma_plain_concat(a, b);
    if a.len() > 0 {
        assert((a + b)[0] == a[0]);
    } else {
        assert(a + b == b);
    }
}

/// The tag of an element without content, with a plain name and plain
/// attributes, is neutral.
#[verifier::rlimit(40)]
pub proof fn lemma_void_tag(name: Seq<char>, attrs: Seq<char>)
    requires
        plain_name(name),
        void_name(name),
        plain_attrs(attrs),
    ensures
        neutral(seq!['<'] + name + attrs + seq!['>']),
{
    let s = seq!['<'] + name + attrs + seq!['>'];
    let e: int = (1 + name.len() + attrs.len()) as int;
    assert(s.len() == e + 1);
    assert(s[0] == '<');
    assert(s[1] == name[0]);
    assert forall|i: int| 0 <= i < s.len() - 1 implies s[i] != '>' by {
        if i >= 1 {
            if i < 1 + name.len() {
                assert(s[i] == name[i - 1]);
            } else {
                assert(s[i] == attrs[i - 1 - name.len()]);
            }
        }
    }
    assert(!starts_with(s, comment_open())) by {
        if starts_with(s, comment_open()) {
            assert(s.subrange(0, 4)[1] == '!');
        }
    }
    lemma_closing_bracket(s);
    let inner = s.subrange(1, e);
    assert(inner == name + attrs);
    lemma_tag_name(name, attrs);
    assert(inner[0] == name[0]);
    assert(s.skip(e + 1) == Seq::<char>::empty());
    assert forall|stack: Seq<Seq<char>>| scan(s, stack) == Some(stack) by {
        assert(scan(s.skip(e + 1), stack) == Some(stack));
    }
}

/// Tokens with plain pieces followed by tokens with plain pieces have
/// plain pieces.
pub proof fn lemma_pieces_concat(a: Seq<Token>, b: Seq<Token>)
    requires
        pieces_plain(a),
        pieces_plain(b),
    ensures
        pieces_plain(a + b),
{
    assert forall|i: int| 0 <= i < (a + b).len() implies match #[trigger] (a + b)[i] {
        Token::Open { tag, attrs } => plain_attrs(attrs),
        Token::Text { chars } => neutral(chars),
        _ => true,
    } by {
        if i < a.len() {
            assert((a + b)[i] == a[i]);
        } else {
            assert((a + b)[i] == b[i - a.len()]);
        }
    }
}

} // verus!
