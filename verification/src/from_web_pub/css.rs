//! Cleaning of the style sheet of a published document: which rules and
//! which declarations are kept, and what a kept rule is written as.

use vstd::prelude::*;
use crate::attr_list::texts;
use crate::decimal::{fixed_text, push_fixed};
use crate::gdocs_site::{is_ascii_digit, is_digit};
use crate::text::{
    chars_eq, drop_spaces, has_prefix, push_chars, push_range, push_str, skip_spaces, starts_with,
    to_chars, to_text, trim,
};

verus! {

/// Why a style sheet could not be cleaned.
#[derive(Clone, Copy, Debug, PartialEq, Eq, Structural)]
pub enum CssError {
    /// The selector of a list does not end with `-` and the depth of the list.
    ListDepth,
}

impl CssError {
    /// A description of the error for the user.
    pub fn message(&self) -> (s: &'static str)
        ensures
            s@ == "List selector without a nesting depth"@,
    {
        "List selector without a nesting depth"
    }
}

/// The selectors whose rules are dropped: the theme of the site styles them.
pub open spec fn removed_selector(selector: Seq<char>) -> bool {
    selector == "ol"@ || selector == "table td,table th"@ || selector == ".title"@ || selector
        == ".subtitle"@ || selector == "h1"@ || selector == "h2"@ || selector == "h3"@ || selector
        == "h4"@ || selector == "h5"@ || selector == "h6"@ || selector == "li"@ || selector == "p"@
}

/// The selectors whose rules are dropped, by their start.
pub open spec fn removed_selector_prefix(selector: Seq<char>) -> bool {
    starts_with(selector, "ul."@) || starts_with(selector, ".lst-kix_"@)
}

/// The properties whose declarations are dropped.
pub open spec fn removed_property(name: Seq<char>) -> bool {
    name == "background-color"@ || name == "counter-reset"@ || name == "orphans"@ || name
        == "widows"@ || name == "vertical-align"@ || name == "font-family"@ || name
        == "font-size"@ || name == "line-height"@ || name == "page-break-after"@ || name
        == "margin"@ || name == "margin-left"@ || name == "margin-right"@ || name == "padding"@
        || name == "padding-bottom"@ || name == "padding-left"@ || name == "padding-right"@
        || name == "padding-top"@ || name == "text-decoration-skip-ink"@ || name
        == "-webkit-text-decoration-skip"@ || name == "height"@ || name == "color"@ || name
        == "content"@ || name == "list-style-type"@ || name == "max-width"@
}

/// Whether a declaration is kept: its property is not dropped, and it does
/// not justify the text.
pub open spec fn kept_declaration(name: Seq<char>, value: Seq<char>) -> bool {
    !removed_property(name) && !(name == "text-align"@ && value == "justify"@)
}

/// Whether the rules of a selector are dropped.
pub fn is_removed_selector(selector: &Vec<char>) -> (r: bool)
    ensures
        r == (removed_selector(selector@) || removed_selector_prefix(selector@)),
{
    chars_eq(selector, "ol") || chars_eq(selector, "table td,table th") || chars_eq(
        selector,
        ".title",
    ) || chars_eq(selector, ".subtitle") || chars_eq(selector, "h1") || chars_eq(selector, "h2")
        || chars_eq(selector, "h3") || chars_eq(selector, "h4") || chars_eq(selector, "h5")
        || chars_eq(selector, "h6") || chars_eq(selector, "li") || chars_eq(selector, "p")
        || has_prefix(selector, "ul.") || has_prefix(selector, ".lst-kix_")
}

/// Whether the declarations of a property are dropped.
pub fn is_removed_property(name: &Vec<char>) -> (r: bool)
    ensures
        r == removed_property(name@),
{
    chars_eq(name, "background-color") || chars_eq(name, "counter-reset") || chars_eq(
        name,
        "orphans",
    ) || chars_eq(name, "widows") || chars_eq(name, "vertical-align") || chars_eq(
        name,
        "font-family",
    ) || chars_eq(name, "font-size") || chars_eq(name, "line-height") || chars_eq(
        name,
        "page-break-after",
    ) || chars_eq(name, "margin") || chars_eq(name, "margin-left") || chars_eq(
        name,
        "margin-right",
    ) || chars_eq(name, "padding") || chars_eq(name, "padding-bottom") || chars_eq(
        name,
        "padding-left",
    ) || chars_eq(name, "padding-right") || chars_eq(name, "padding-top") || chars_eq(
        name,
        "text-decoration-skip-ink",
    ) || chars_eq(name, "-webkit-text-decoration-skip") || chars_eq(name, "height") || chars_eq(
        name,
        "color",
    ) || chars_eq(name, "content") || chars_eq(name, "list-style-type") || chars_eq(
        name,
        "max-width",
    )
}

/// Whether a declaration is dropped although its property is kept.
pub fn remove_property(name: &Vec<char>, value: &Vec<char>) -> (r: bool)
    ensures
        r == (name@ == "text-align"@ && value@ == "justify"@),
{
    chars_eq(name, "text-align") && chars_eq(value, "justify")
}

//-------------------------------------------------------------------------
// The depth of a list

/// The number that the digits `s` stand for; `None` where `s` is empty or
/// holds anything but digits.
pub open spec fn digits_value(s: Seq<char>) -> Option<nat>
    decreases s.len(),
{
    if s.len() == 0 {
        None
    } else if !is_digit(s.last()) {
        None
    } else if s.len() == 1 {
        Some((s.last() as int - '0' as int) as nat)
    } else {
        match digits_value(s.drop_last()) {
            Some(v) => Some((v * 10 + (s.last() as int - '0' as int)) as nat),
            None => None,
        }
    }
}

/// The number that `s` stands for, an optional sign and digits, where it
/// lies between -128 and 127.
pub open spec fn small_int(s: Seq<char>) -> Option<int> {
    if s.len() > 0 && s[0] == '-' {
        match digits_value(s.skip(1)) {
            Some(v) => if v <= 128 {
                Some(-(v as int))
            } else {
                None
            },
            None => None,
        }
    } else {
        let digits = if s.len() > 0 && s[0] == '+' {
            s.skip(1)
        } else {
            s
        };
        match digits_value(digits) {
            Some(v) => if v <= 127 {
                Some(v as int)
            } else {
                None
            },
            None => None,
        }
    }
}

/// A number is not smaller than the number of its first digits.
pub proof fn lemma_digits_grow(s: Seq<char>, n: int)
    requires
        0 < n <= s.len(),
        digits_value(s) is Some,
    ensures
        digits_value(s.take(n)) matches Some(p) && p <= digits_value(s)->0,
    decreases s.len(),
{
    if n == s.len() {
        assert(s.take(n) == s);
    } else {
        assert(s.drop_last().take(n) == s.take(n));
        lemma_digits_grow(s.drop_last(), n);
    }
}

/// The number that the digits `v[lo..]` stand for, where it is at most `cap`.
pub fn parse_digits(v: &Vec<char>, lo: usize, cap: u32) -> (r: Option<u32>)
    requires
        lo <= v.len(),
        cap <= 1000,
    ensures
        match r {
            Some(n) => n <= cap && digits_value(v@.skip(lo as int)) == Some(n as nat),
            None => match digits_value(v@.skip(lo as int)) {
                Some(n) => n > cap,
                None => true,
            },
        },
{
    let ghost s = v@.skip(lo as int);
    if lo == v.len() {
        return None;
    }
    let mut value: u32 = 0;
    let mut i: usize = lo;
    while i < v.len()
        invariant
            lo <= i <= v.len(),
            lo < v.len(),
            cap <= 1000,
            s == v@.skip(lo as int),
            value <= cap,
            i > lo ==> digits_value(s.take(i - lo)) == Some(value as nat),
            i == lo ==> value == 0,
        decreases v.len() - i,
    {
        assert(s.take(i - lo + 1).drop_last() == s.take(i - lo));
        assert(s.take(i - lo + 1).last() == v@[i as int]);
        if !is_ascii_digit(v[i]) {
            proof {
                if digits_value(s) is Some {
                    lemma_digits_grow(s, i - lo + 1);
                }
            }
            return None;
        }
        let d: u32 = (v[i] as u32) - ('0' as u32);
        let next: u32 = value * 10 + d;
        assert(digits_value(s.take(i - lo + 1)) == Some(next as nat));
        if next > cap {
            proof {
                if digits_value(s) is Some {
                    lemma_digits_grow(s, i - lo + 1);
                }
            }
            return None;
        }
        value = next;
        i += 1;
    }
    assert(s.take(v.len() - lo) == s);
    Some(value)
}

/// The number that `v[lo..]` stands for, where it lies between -128 and 127.
pub fn parse_small_int(v: &Vec<char>, lo: usize) -> (r: Option<i32>)
    requires
        lo <= v.len(),
    ensures
        match r {
            Some(n) => small_int(v@.skip(lo as int)) == Some(n as int),
            None => small_int(v@.skip(lo as int)) is None,
        },
{
    let ghost s = v@.skip(lo as int);
    if lo < v.len() && v[lo] == '-' {
        assert(s.skip(1) == v@.skip(lo + 1));
        match parse_digits(v, lo + 1, 128) {
            Some(n) => Some(-(n as i32)),
            None => None,
        }
    } else if lo < v.len() && v[lo] == '+' {
        assert(s.skip(1) == v@.skip(lo + 1));
        match parse_digits(v, lo + 1, 127) {
            Some(n) => Some(n as i32),
            None => None,
        }
    } else {
        match parse_digits(v, lo, 127) {
            Some(n) => Some(n as i32),
            None => None,
        }
    }
}

/// The position after the last `-` of `s`, if it holds one.
pub open spec fn after_last_dash(s: Seq<char>) -> Option<int>
    decreases s.len(),
{
    if s.len() == 0 {
        None
    } else if s.last() == '-' {
        Some(s.len() as int)
    } else {
        after_last_dash(s.drop_last())
    }
}

/// The depth of the list that a selector names: the number after its last `-`.
pub open spec fn list_depth(selector: Seq<char>) -> Option<int> {
    match after_last_dash(selector) {
        Some(p) => small_int(selector.skip(p)),
        None => None,
    }
}

/// The depth of the list that a selector names.
pub fn list_depth_of(selector: &Vec<char>) -> (r: Option<i32>)
    ensures
        match r {
            Some(n) => list_depth(selector@) == Some(n as int) && -128 <= n <= 127,
            None => list_depth(selector@) is None,
        },
{
    let mut i: usize = selector.len();
    assert(selector@.take(i as int) == selector@);
    while i > 0 && selector[i - 1] != '-'
        invariant
            i <= selector.len(),
            after_last_dash(selector@) == after_last_dash(selector@.take(i as int)),
        decreases i,
    {
        assert(selector@.take(i as int).drop_last() == selector@.take(i - 1));
        i -= 1;
    }
    if i == 0 {
        None
    } else {
        parse_small_int(selector, i)
    }
}

//-------------------------------------------------------------------------
// Rules

/// The texts of a list of declarations.
pub open spec fn declaration_texts(v: Seq<(String, String)>) -> Seq<(Seq<char>, Seq<char>)> {
    Seq::new(v.len(), |i: int| (v[i].0@, v[i].1@))
}

/// The declarations that are kept, each as `name : value; `, name and
/// value trimmed.
pub open spec fn declarations_text(declarations: Seq<(Seq<char>, Seq<char>)>) -> Seq<char>
    decreases declarations.len(),
{
    if declarations.len() == 0 {
        Seq::empty()
    } else {
        let name = trim(declarations.last().0);
        let value = trim(declarations.last().1);
        declarations_text(declarations.drop_last()) + (if kept_declaration(name, value) {
            name + " : "@ + value + "; "@
        } else {
            Seq::empty()
        })
    }
}

/// What a rule is written as. The rule of a list gives the list a left
/// padding of two units for each level of its depth, counted from one; a
/// rule whose selector is dropped gives nothing; any other rule is written
/// with the declarations that are kept.
pub open spec fn rule_text(selector: Seq<char>, declarations: Seq<(Seq<char>, Seq<char>)>) -> Result<
    Seq<char>,
    CssError,
> {
    let name = trim(selector);
    if starts_with(name, "ul.lst-kix_"@) {
        match list_depth(name) {
            Some(depth) => Ok(
                name + " { padding-left: "@ + fixed_text(depth * 2 + 2, 0) + "em; } "@,
            ),
            None => Err(CssError::ListDepth),
        }
    } else if removed_selector(name) || removed_selector_prefix(name) {
        Ok(Seq::empty())
    } else {
        Ok(name + " {"@ + declarations_text(declarations) + "} "@)
    }
}

/// The characters of `text`, trimmed.
pub fn trimmed(text: &str) -> (r: Vec<char>)
    ensures
        r@ == trim(text@),
{
    let v = to_chars(text);
    assert(v@.subrange(0, v.len() as int) == v@);
    let a: usize = skip_spaces(&v, 0, v.len());
    let b: usize = drop_spaces(&v, a, v.len());
    let mut r: Vec<char> = Vec::new();
    push_range(&mut r, &v, a, b);
    r
}

/// Appends to `out` the declarations that are kept.
pub fn push_declarations(out: &mut Vec<char>, declarations: &Vec<(String, String)>)
    ensures
        final(out)@ == old(out)@ + declarations_text(declaration_texts(declarations@)),
{
    let ghost all = declaration_texts(declarations@);
    let mut i: usize = 0;
    assert(old(out)@ + declarations_text(all.take(0)) == old(out)@);
    while i < declarations.len()
        invariant
            i <= declarations.len(),
            all == declaration_texts(declarations@),
            out@ == old(out)@ + declarations_text(all.take(i as int)),
        decreases declarations.len() - i,
    {
        assert(all.take(i + 1).drop_last() == all.take(i as int));
        let name = trimmed(declarations[i].0.as_str());
        let value = trimmed(declarations[i].1.as_str());
        let ghost before = out@;
        if !is_removed_property(&name) && !remove_property(&name, &value) {
            push_chars(out, &name);
            push_str(out, " : ");
            push_chars(out, &value);
            push_str(out, "; ");
            assert(out@ == before + (name@ + " : "@ + value@ + "; "@));
        } else {
            assert(before + Seq::<char>::empty() == before);
        }
        i += 1;
    }
    assert(all.take(declarations.len() as int) == all);
}

/// Appends to `out` what a rule is written as.
pub fn push_rule(out: &mut Vec<char>, selector: &str, declarations: &Vec<(String, String)>) -> (r:
    Result<(), CssError>)
    ensures
        match r {
            Ok(()) => rule_text(selector@, declaration_texts(declarations@)) matches Ok(text)
                && final(out)@ == old(out)@ + text,
            Err(e) => rule_text(selector@, declaration_texts(declarations@)) == Err::<
                Seq<char>,
                CssError,
            >(e) && final(out)@ == old(out)@,
        },
{
    let name = trimmed(selector);
    if has_prefix(&name, "ul.lst-kix_") {
        match list_depth_of(&name) {
            Some(depth) => {
                let ghost before = out@;
                push_chars(out, &name);
                push_str(out, " { padding-left: ");
                push_fixed(out, (depth * 2 + 2) as i128, 0);
                push_str(out, "em; } ");
                assert(out@ == before + (name@ + " { padding-left: "@ + fixed_text(
                    depth * 2 + 2,
                    0,
                ) + "em; } "@));
                Ok(())
            },
            None => Err(CssError::ListDepth),
        }
    } else if is_removed_selector(&name) {
        assert(old(out)@ + Seq::<char>::empty() == old(out)@);
        Ok(())
    } else {
        let ghost before = out@;
        push_chars(out, &name);
        push_str(out, " {");
        push_declarations(out, declarations);
        push_str(out, "} ");
        assert(out@ == before + (name@ + " {"@ + declarations_text(
            declaration_texts(declarations@),
        ) + "} "@));
        Ok(())
    }
}

/// A rule of a style sheet: its selector and its declarations.
#[derive(Debug)]
pub struct Rule {
    pub selector: String,
    pub declarations: Vec<(String, String)>,
}

/// What the rules from position `from` on are written as, after `done`.
pub open spec fn rules_text(rules: Seq<Rule>, from: int, done: Seq<char>) -> Result<
    Seq<char>,
    CssError,
>
    decreases rules.len() - from,
{
    if from < 0 || from >= rules.len() {
        Ok(done)
    } else {
        match rule_text(rules[from].selector@, declaration_texts(rules[from].declarations@)) {
            Ok(text) => rules_text(rules, from + 1, done + text),
            Err(e) => Err(e),
        }
    }
}

/// The style sheet that is left of `rules`: each rule as it is written,
/// in order. The first rule of a list without a depth is an error.
pub fn cleanup_css(rules: &Vec<Rule>) -> (r: Result<String, CssError>)
    ensures
        match r {
            Ok(css) => rules_text(rules@, 0, Seq::empty()) == Ok::<Seq<char>, CssError>(css@),
            Err(e) => rules_text(rules@, 0, Seq::empty()) == Err::<Seq<char>, CssError>(e),
        },
{
    let mut out: Vec<char> = Vec::new();
    let mut i: usize = 0;
    while i < rules.len()
        invariant
            i <= rules.len(),
            rules_text(rules@, 0, Seq::empty()) == rules_text(rules@, i as int, out@),
        decreases rules.len() - i,
    {
        match push_rule(&mut out, rules[i].selector.as_str(), &rules[i].declarations) {
            Ok(()) => {},
            Err(e) => {
                return Err(e);
            },
        }
        i += 1;
    }
    Ok(to_text(&out))
}

} // verus!
