//! A serializer of DOM events that produces a stable output.
//!
//! The attributes of an element reach the serializer in no particular
//! order. They are sorted by their local name before they are written, so
//! that the same tree always gives the same text. A comment that holds an
//! unexpanded shortcode is written verbatim, for the site generator to find.

use vstd::prelude::*;
use vstd::string::StringExecFns;
use html5ever::serialize::{HtmlSerializer, SerializeOpts, Serializer, TraversalScope};
use html5ever::{LocalName, Namespace, QualName};
use crate::escape::escaped;
use crate::text::{has_prefix, starts_with, to_chars};

verus! {

/// An attribute of an element.
#[derive(Debug)]
pub struct Attribute {
    /// The namespace of the name; empty for the attributes of HTML.
    pub ns: String,
    /// The local name.
    pub name: String,
    pub value: String,
}

/// The mathematical content of an `Attribute`.
pub struct AttributeView {
    pub ns: Seq<char>,
    pub name: Seq<char>,
    pub value: Seq<char>,
}

impl View for Attribute {
    type V = AttributeView;

    open spec fn view(&self) -> AttributeView {
        AttributeView { ns: self.ns@, name: self.name@, value: self.value@ }
    }
}

impl Attribute {
    /// An attribute of HTML: one without a namespace.
    pub fn new(name: &str, value: &str) -> (r: Self)
        ensures
            r@ == (AttributeView { ns: Seq::empty(), name: name@, value: value@ }),
    {
        Attribute {
            ns: String::new(),
            name: String::from_str(name),
            value: String::from_str(value),
        }
    }

    /// A copy of the attribute.
    pub fn copy(&self) -> (r: Self)
        ensures
            r@ == self@,
    {
        Attribute { ns: self.ns.clone(), name: self.name.clone(), value: self.value.clone() }
    }
}

/// The views of a sequence of attributes.
pub open spec fn attribute_views(attrs: Seq<Attribute>) -> Seq<AttributeView> {
    Seq::new(attrs.len(), |i: int| attrs[i]@)
}

//-------------------------------------------------------------------------
// The order of names

/// `a` comes before `b`, or is `b`, in the order of the dictionary, where
/// characters go by their code points.
pub open spec fn name_le(a: Seq<char>, b: Seq<char>) -> bool
    decreases a.len(),
{
    if a.len() == 0 {
        true
    } else if b.len() == 0 {
        false
    } else if a[0] != b[0] {
        (a[0] as int) < (b[0] as int)
    } else {
        name_le(a.drop_first(), b.drop_first())
    }
}

/// Of two names, one comes before the other or is the other.
pub proof fn lemma_name_le_total(a: Seq<char>, b: Seq<char>)
    ensures
        name_le(a, b) || name_le(b, a),
    decreases a.len(),
{
    if a.len() > 0 && b.len() > 0 {
        if a[0] == b[0] {
            lemma_name_le_total(a.drop_first(), b.drop_first());
        } else {
            assert((a[0] as int) != (b[0] as int));
        }
    }
}

/// Two names that come before each other are one name.
pub proof fn lemma_name_le_antisymmetric(a: Seq<char>, b: Seq<char>)
    requires
        name_le(a, b),
        name_le(b, a),
    ensures
        a == b,
    decreases a.len(),
{
    if a.len() == 0 || b.len() == 0 {
        assert(a =~= b);
    } else {
        lemma_name_le_antisymmetric(a.drop_first(), b.drop_first());
        assert(a =~= seq![a[0]] + a.drop_first());
        assert(b =~= seq![b[0]] + b.drop_first());
    }
}

/// The order of names is transitive.
pub proof fn lemma_name_le_transitive(a: Seq<char>, b: Seq<char>, c: Seq<char>)
    requires
        name_le(a, b),
        name_le(b, c),
    ensures
        name_le(a, c),
    decreases a.len(),
{
    if a.len() > 0 && b.len() > 0 && c.len() > 0 && a[0] == b[0] && b[0] == c[0] {
        lemma_name_le_transitive(a.drop_first(), b.drop_first(), c.drop_first());
    }
}

/// Whether `a` comes before `b`, or is `b`, in the order of names.
pub fn name_before(a: &str, b: &str) -> (r: bool)
    ensures
        r == name_le(a@, b@),
{
    let x = to_chars(a);
    let y = to_chars(b);
    let mut i: usize = 0;
    assert(x@.skip(0) == x@);
    assert(y@.skip(0) == y@);
    loop
        invariant
            i <= x.len(),
            i <= y.len(),
            x@ == a@,
            y@ == b@,
            name_le(a@, b@) == name_le(x@.skip(i as int), y@.skip(i as int)),
        decreases x.len() - i,
    {
        if i == x.len() {
            return true;
        }
        if i == y.len() {
            return false;
        }
        assert(x@.skip(i as int).drop_first() == x@.skip(i + 1));
        assert(y@.skip(i as int).drop_first() == y@.skip(i + 1));
        if x[i] != y[i] {
            assert(x@.skip(i as int)[0] == x@[i as int]);
            assert(y@.skip(i as int)[0] == y@[i as int]);
            return x[i] < y[i];
        }
        assert(x@.skip(i as int)[0] == y@.skip(i as int)[0]);
        i += 1;
    }
}

//-------------------------------------------------------------------------
// Sorting

/// The names of `s` are in order.
pub open spec fn in_name_order(s: Seq<AttributeView>) -> bool {
    forall|i: int, j: int| 0 <= i < j < s.len() ==> name_le(#[trigger] s[i].name, #[trigger] s[j].name)
}

/// No two attributes of `s` have the same name.
pub open spec fn distinct_names(s: Seq<AttributeView>) -> bool {
    forall|i: int, j: int| 0 <= i < j < s.len() ==> #[trigger] s[i].name != #[trigger] s[j].name
}

/// Where `x` goes into `t`: after the last attribute whose name does not
/// come after that of `x`.
pub open spec fn insert_position(t: Seq<AttributeView>, x: AttributeView) -> int
    decreases t.len(),
{
    if t.len() == 0 {
        0
    } else if name_le(t.last().name, x.name) {
        t.len() as int
    } else {
        insert_position(t.drop_last(), x)
    }
}

/// The attributes of `s` sorted by name; attributes of one name keep their order.
pub open spec fn sorted_by_name(s: Seq<AttributeView>) -> Seq<AttributeView>
    decreases s.len(),
{
    if s.len() == 0 {
        Seq::empty()
    } else {
        let t = sorted_by_name(s.drop_last());
        t.insert(insert_position(t, s.last()), s.last())
    }
}

/// What `insert_position` finds: every attribute from there on comes after
/// `x`, and the one before it does not.
pub proof fn lemma_insert_position(t: Seq<AttributeView>, x: AttributeView)
    ensures
        0 <= insert_position(t, x) <= t.len(),
        forall|k: int| insert_position(t, x) <= k < t.len() ==> !name_le(#[trigger] t[k].name, x.name),
        insert_position(t, x) > 0 ==> name_le(t[insert_position(t, x) - 1].name, x.name),
    decreases t.len(),
{
    if t.len() > 0 && !name_le(t.last().name, x.name) {
        lemma_insert_position(t.drop_last(), x);
        let p = insert_position(t, x);
        assert forall|k: int| p <= k < t.len() implies !name_le(#[trigger] t[k].name, x.name) by {
            if k < t.len() - 1 {
                assert(t.drop_last()[k] == t[k]);
            }
        }
        if p > 0 {
            assert(t.drop_last()[p - 1] == t[p - 1]);
        }
    }
}

/// Inserting at the position that `insert_position` finds keeps the order.
pub proof fn lemma_insert_keeps_order(t: Seq<AttributeView>, x: AttributeView)
    requires
        in_name_order(t),
    ensures
        in_name_order(t.insert(insert_position(t, x), x)),
{
    let p = insert_position(t, x);
    let r = t.insert(p, x);
    lemma_insert_position(t, x);
    assert forall|i: int, j: int| 0 <= i < j < r.len() implies name_le(
        #[trigger] r[i].name,
        #[trigger] r[j].name,
    ) by {
        if j < p {
            assert(name_le(t[i].name, t[j].name));
        } else if j == p {
            if i < p - 1 {
                assert(name_le(t[i].name, t[p - 1].name));
                lemma_name_le_transitive(t[i].name, t[p - 1].name, x.name);
            }
        } else if i == p {
            assert(!name_le(t[j - 1].name, x.name));
            lemma_name_le_total(x.name, t[j - 1].name);
        } else if i < p {
            assert(name_le(t[i].name, t[j - 1].name));
        } else {
            assert(name_le(t[i - 1].name, t[j - 1].name));
        }
    }
}

/// Sorted attributes are in the order of their names.
pub proof fn lemma_sorted_in_order(s: Seq<AttributeView>)
    ensures
        in_name_order(sorted_by_name(s)),
        sorted_by_name(s).len() == s.len(),
    decreases s.len(),
{
    if s.len() > 0 {
        lemma_sorted_in_order(s.drop_last());
        lemma_insert_position(sorted_by_name(s.drop_last()), s.last());
        lemma_insert_keeps_order(sorted_by_name(s.drop_last()), s.last());
    }
}

/// Inserting an attribute adds it to those that are there.
pub proof fn lemma_insert_adds(t: Seq<AttributeView>, p: int, x: AttributeView)
    requires
        0 <= p <= t.len(),
    ensures
        t.insert(p, x).to_multiset() == t.to_multiset().insert(x),
{
    broadcast use vstd::seq_lib::group_to_multiset_ensures;

    let r = t.insert(p, x);
    assert(r.remove(p) == t);
    assert(r[p] == x);
    assert(r.remove(p).to_multiset() == r.to_multiset().remove(x));
    assert(r.contains(x));
    assert(r.to_multiset().count(x) > 0);
    assert(r.to_multiset() =~= t.to_multiset().insert(x));
}

/// Sorting keeps the attributes: each as often as it was there.
pub proof fn lemma_sorted_permutes(s: Seq<AttributeView>)
    ensures
        sorted_by_name(s).to_multiset() == s.to_multiset(),
    decreases s.len(),
{
    broadcast use vstd::seq_lib::group_to_multiset_ensures;

    if s.len() == 0 {
        assert(sorted_by_name(s) == s);
    } else {
        let t = sorted_by_name(s.drop_last());
        lemma_sorted_permutes(s.drop_last());
        lemma_insert_position(t, s.last());
        lemma_insert_adds(t, insert_position(t, s.last()), s.last());
        assert(s.drop_last().push(s.last()) == s);
    }
}

/// In these attributes no name is held twice.
pub open spec fn unique_names(m: vstd::multiset::Multiset<AttributeView>) -> bool {
    forall|a: AttributeView, b: AttributeView|
        m.count(a) > 0 && m.count(b) > 0 && a.name == b.name ==> a == b && m.count(a) == 1
}

/// Attributes with distinct names hold no name twice.
pub proof fn lemma_distinct_is_unique(s: Seq<AttributeView>)
    requires
        distinct_names(s),
    ensures
        unique_names(s.to_multiset()),
{
    broadcast use vstd::seq_lib::group_to_multiset_ensures;

    assert(s.no_duplicates()) by {
        assert forall|i: int, j: int| 0 <= i < s.len() && 0 <= j < s.len() && i != j implies s[i]
            != s[j] by {
            if i < j {
                assert(s[i].name != s[j].name);
            } else {
                assert(s[j].name != s[i].name);
            }
        }
    }
    s.lemma_multiset_has_no_duplicates();
    let m = s.to_multiset();
    assert forall|a: AttributeView, b: AttributeView|
        m.count(a) > 0 && m.count(b) > 0 && a.name == b.name implies a == b && m.count(a)
        == 1 by {
        assert(s.contains(a));
        assert(s.contains(b));
        let i = choose|i: int| 0 <= i < s.len() && s[i] == a;
        let j = choose|j: int| 0 <= j < s.len() && s[j] == b;
        if i < j {
            assert(s[i].name != s[j].name);
        } else if j < i {
            assert(s[j].name != s[i].name);
        }
        assert(m.contains(a));
    }
}

/// Two sequences in name order that hold the same attributes, none of
/// them a name twice, are the same sequence.
#[verifier::rlimit(40)]
pub proof fn lemma_order_is_unique(x: Seq<AttributeView>, y: Seq<AttributeView>)
    requires
        in_name_order(x),
        in_name_order(y),
        x.to_multiset() == y.to_multiset(),
        unique_names(x.to_multiset()),
    ensures
        x == y,
    decreases x.len(),
{
    broadcast use vstd::seq_lib::group_to_multiset_ensures;

    assert(x.to_multiset().len() == x.len());
    assert(y.to_multiset().len() == y.len());
    if x.len() == 0 {
        assert(x =~= y);
    } else {
        let n = x.len() as int;
        let m = x.last();
        let z = y.last();
        assert(x.contains(m));
        assert(y.contains(z));
        assert(x.to_multiset().count(z) > 0);
        assert(x.contains(z));
        let i = choose|i: int| 0 <= i < n && x[i] == z;
        assert(y.to_multiset().count(m) > 0);
        assert(y.contains(m));
        let k = choose|k: int| 0 <= k < n && y[k] == m;
        if i < n - 1 {
            assert(name_le(x[i].name, x[n - 1].name));
        }
        if k < n - 1 {
            assert(name_le(y[k].name, y[n - 1].name));
        }
        if i < n - 1 && k < n - 1 {
            lemma_name_le_antisymmetric(z.name, m.name);
        }
        assert(z == m) by {
            if i == n - 1 {
            } else if k == n - 1 {
            } else {
                assert(x.to_multiset().count(z) > 0 && x.to_multiset().count(m) > 0);
            }
        }
        let x1 = x.drop_last();
        let y1 = y.drop_last();
        assert(x1 == x.remove(n - 1));
        assert(y1 == y.remove(n - 1));
        assert(x1.to_multiset() == x.to_multiset().remove(m));
        assert(y1.to_multiset() == y.to_multiset().remove(m));
        assert(in_name_order(x1)) by {
            assert forall|a: int, b: int| 0 <= a < b < x1.len() implies name_le(
                #[trigger] x1[a].name,
                #[trigger] x1[b].name,
            ) by {
                assert(name_le(x[a].name, x[b].name));
            }
        }
        assert(in_name_order(y1)) by {
            assert forall|a: int, b: int| 0 <= a < b < y1.len() implies name_le(
                #[trigger] y1[a].name,
                #[trigger] y1[b].name,
            ) by {
                assert(name_le(y[a].name, y[b].name));
            }
        }
        assert(unique_names(x1.to_multiset())) by {
            let big = x.to_multiset();
            let small = x1.to_multiset();
            assert forall|a: AttributeView, b: AttributeView|
                small.count(a) > 0 && small.count(b) > 0 && a.name == b.name implies a == b
                && small.count(a) == 1 by {
                assert(big.count(a) > 0 && big.count(b) > 0);
            }
        }
        lemma_order_is_unique(x1, y1);
        assert(x =~= x1.push(m));
        assert(y =~= y1.push(m));
    }
}

/// The order in which attributes are written depends only on which
/// attributes there are, not on the order in which they arrive: two
/// sequences that hold the same attributes, with distinct names, are
/// sorted to the same sequence.
pub proof fn lemma_stable_order(a: Seq<AttributeView>, b: Seq<AttributeView>)
    requires
        distinct_names(a),
        a.to_multiset() == b.to_multiset(),
    ensures
        sorted_by_name(a) == sorted_by_name(b),
{
    lemma_sorted_in_order(a);
    lemma_sorted_in_order(b);
    lemma_sorted_permutes(a);
    lemma_sorted_permutes(b);
    lemma_distinct_is_unique(a);
    lemma_order_is_unique(sorted_by_name(a), sorted_by_name(b));
}

/// The attributes sorted by name.
#[verifier::rlimit(40)]
pub fn sort_attributes(attrs: &Vec<Attribute>) -> (r: Vec<Attribute>)
    ensures
        attribute_views(r@) == sorted_by_name(attribute_views(attrs@)),
{
    let ghost all = attribute_views(attrs@);
    let mut r: Vec<Attribute> = Vec::new();
    let mut i: usize = 0;
    assert(attribute_views(r@) == sorted_by_name(all.take(0)));
    while i < attrs.len()
        invariant
            i <= attrs.len(),
            all == attribute_views(attrs@),
            r@.len() == i,
            attribute_views(r@) == sorted_by_name(all.take(i as int)),
        decreases attrs.len() - i,
    {
        let ghost t = attribute_views(r@);
        let ghost x = attrs@[i as int]@;
        assert(all.take(i + 1).drop_last() == all.take(i as int));
        assert(all.take(i + 1).last() == x);
        let mut p: usize = r.len();
        assert(t.take(r.len() as int) == t);
        while p > 0 && !name_before(r[p - 1].name.as_str(), attrs[i].name.as_str())
            invariant
                p <= r.len(),
                i < attrs.len(),
                t == attribute_views(r@),
                x == attrs@[i as int]@,
                insert_position(t, x) == insert_position(t.take(p as int), x),
            decreases p,
        {
            assert(t.take(p as int).drop_last() == t.take(p - 1));
            p -= 1;
        }
        assert(insert_position(t, x) == p);
        let item = attrs[i].copy();
        r.insert(p, item);
        assert(attribute_views(r@) == t.insert(p as int, x));
        i += 1;
    }
    assert(all.take(attrs.len() as int) == all);
    r
}

//-------------------------------------------------------------------------
// What is written

/// What stands before the local name of an attribute, by its namespace.
pub open spec fn namespace_prefix(ns: Seq<char>, name: Seq<char>) -> Seq<char> {
    if ns.len() == 0 {
        Seq::empty()
    } else if ns == "http://www.w3.org/XML/1998/namespace"@ {
        "xml:"@
    } else if ns == "http://www.w3.org/2000/xmlns/"@ {
        if name == "xmlns"@ {
            Seq::empty()
        } else {
            "xmlns:"@
        }
    } else if ns == "http://www.w3.org/1999/xlink"@ {
        "xlink:"@
    } else {
        "unknown_namespace:"@
    }
}

/// One attribute in an opening tag.
pub open spec fn attribute_markup(a: AttributeView) -> Seq<char> {
    seq![' '] + namespace_prefix(a.ns, a.name) + a.name + seq!['=', '"'] + escaped(a.value, true)
        + seq!['"']
}

/// The attributes of an opening tag, in the order given.
pub open spec fn attributes_markup(attrs: Seq<AttributeView>) -> Seq<char>
    decreases attrs.len(),
{
    if attrs.len() == 0 {
        Seq::empty()
    } else {
        attributes_markup(attrs.drop_last()) + attribute_markup(attrs.last())
    }
}

/// The opening tag of an element with its attributes in the order given.
pub open spec fn start_markup(name: Seq<char>, attrs: Seq<AttributeView>) -> Seq<char> {
    seq!['<'] + name + attributes_markup(attrs) + seq!['>']
}

/// The closing tag of an element.
pub open spec fn end_markup(name: Seq<char>) -> Seq<char> {
    seq!['<', '/'] + name + seq!['>']
}

/// A comment.
pub open spec fn comment_markup(text: Seq<char>) -> Seq<char> {
    "<!--"@ + text + "-->"@
}

/// A document type declaration.
pub open spec fn doctype_markup(name: Seq<char>) -> Seq<char> {
    "<!DOCTYPE "@ + name + seq!['>']
}

/// A processing instruction.
pub open spec fn instruction_markup(target: Seq<char>, data: Seq<char>) -> Seq<char> {
    seq!['<', '?'] + target + seq![' '] + data + seq!['>']
}

/// Whether a comment holds an unexpanded shortcode.
pub open spec fn is_shortcode_comment(text: Seq<char>) -> bool {
    starts_with(text, "{{<"@)
}

/// What a comment is written as: a shortcode verbatim and followed by a
/// newline, any other comment between the comment delimiters.
pub open spec fn written_comment(text: Seq<char>) -> Seq<char> {
    if is_shortcode_comment(text) {
        text.push('\n')
    } else {
        comment_markup(text)
    }
}

//-------------------------------------------------------------------------
// The calls into html5ever

/// The opening tag of the element `name` with the attributes `attrs`.
///
/// Trusted: calls `start_elem` of html5ever's `HtmlSerializer`, on a fresh
/// serializer that keeps the node and writes to a buffer. The contract
/// claims what that function writes for an element whose parent does not
/// hide its children: `<`, the local name, for each attribute in the order
/// given a space, the prefix of its namespace, its local name and its value
/// escaped between double quotes, then `>`.
#[verifier::external_body]
fn html5ever_start_elem(name: &str, attrs: &Vec<Attribute>) -> (r: String)
    ensures
        r@ == start_markup(name@, attribute_views(attrs@)),
{
    let scope = TraversalScope::IncludeNode;
    let opts = SerializeOpts { scripting_enabled: false, traversal_scope: scope, create_missing_parent: false };
    let names: Vec<QualName> = attrs.iter().map(
        |a| QualName::new(None, Namespace::from(a.ns.as_str()), LocalName::from(a.name.as_str())),
    ).collect();
    let pairs = names.iter().zip(attrs.iter()).map(|(n, a)| (n, a.value.as_str()));
    let html = Namespace::from("http://www.w3.org/1999/xhtml");
    let tag = QualName::new(None, html, LocalName::from(name));
    let mut buf: Vec<u8> = Vec::new();
    HtmlSerializer::new(&mut buf, opts).start_elem(tag, pairs).unwrap();
    String::from_utf8(buf).unwrap()
}

/// The closing tag of the element `name`.
///
/// Trusted: calls `end_elem` of html5ever's `HtmlSerializer`, on a fresh
/// serializer that keeps the node. The contract claims that it writes `</`,
/// the local name and `>`.
#[verifier::external_body]
fn html5ever_end_elem(name: &str) -> (r: String)
    ensures
        r@ == end_markup(name@),
{
    let scope = TraversalScope::IncludeNode;
    let opts = SerializeOpts { scripting_enabled: false, traversal_scope: scope, create_missing_parent: false };
    let html = Namespace::from("http://www.w3.org/1999/xhtml");
    let tag = QualName::new(None, html, LocalName::from(name));
    let mut buf: Vec<u8> = Vec::new();
    HtmlSerializer::new(&mut buf, opts).end_elem(tag).unwrap();
    String::from_utf8(buf).unwrap()
}

/// The text `text` as content.
///
/// Trusted: calls `write_text` of html5ever's `HtmlSerializer`, on a fresh
/// serializer that keeps the node. The contract claims that, outside of
/// any element, it writes the text with the ampersand, the no-break space
/// and the angle brackets escaped.
#[verifier::external_body]
fn html5ever_write_text(text: &str) -> (r: String)
    ensures
        r@ == escaped(text@, false),
{
    let scope = TraversalScope::IncludeNode;
    let opts = SerializeOpts { scripting_enabled: false, traversal_scope: scope, create_missing_parent: false };
    let mut buf: Vec<u8> = Vec::new();
    HtmlSerializer::new(&mut buf, opts).write_text(text).unwrap();
    String::from_utf8(buf).unwrap()
}

/// The comment `text`.
///
/// Trusted: calls `write_comment` of html5ever's `HtmlSerializer`. The
/// contract claims that it writes the text between `<!--` and `-->`.
#[verifier::external_body]
fn html5ever_write_comment(text: &str) -> (r: String)
    ensures
        r@ == comment_markup(text@),
{
    let scope = TraversalScope::IncludeNode;
    let opts = SerializeOpts { scripting_enabled: false, traversal_scope: scope, create_missing_parent: false };
    let mut buf: Vec<u8> = Vec::new();
    HtmlSerializer::new(&mut buf, opts).write_comment(text).unwrap();
    String::from_utf8(buf).unwrap()
}

/// The document type declaration for `name`.
///
/// Trusted: calls `write_doctype` of html5ever's `HtmlSerializer`. The
/// contract claims that it writes the name between `<!DOCTYPE ` and `>`.
#[verifier::external_body]
fn html5ever_write_doctype(name: &str) -> (r: String)
    ensures
        r@ == doctype_markup(name@),
{
    let scope = TraversalScope::IncludeNode;
    let opts = SerializeOpts { scripting_enabled: false, traversal_scope: scope, create_missing_parent: false };
    let mut buf: Vec<u8> = Vec::new();
    HtmlSerializer::new(&mut buf, opts).write_doctype(name).unwrap();
    String::from_utf8(buf).unwrap()
}

/// The processing instruction for `target` with `data`.
///
/// Trusted: calls `write_processing_instruction` of html5ever's
/// `HtmlSerializer`. The contract claims that it writes `<?`, the target, a
/// space, the data and `>`.
#[verifier::external_body]
fn html5ever_write_processing_instruction(target: &str, data: &str) -> (r: String)
    ensures
        r@ == instruction_markup(target@, data@),
{
    let scope = TraversalScope::IncludeNode;
    let opts = SerializeOpts { scripting_enabled: false, traversal_scope: scope, create_missing_parent: false };
    let mut buf: Vec<u8> = Vec::new();
    HtmlSerializer::new(&mut buf, opts).write_processing_instruction(target, data).unwrap();
    String::from_utf8(buf).unwrap()
}

//-------------------------------------------------------------------------
// The serializer

/// A serializer that writes elements with their attributes sorted by name.
#[derive(Debug)]
pub struct StableHtmlSerializer {
    /// The text written so far.
    pub writer: String,
}

impl View for StableHtmlSerializer {
    type V = Seq<char>;

    open spec fn view(&self) -> Seq<char> {
        self.writer@
    }
}

impl StableHtmlSerializer {
    /// A serializer that has written nothing.
    pub fn new() -> (r: Self)
        ensures
            r@ == Seq::<char>::empty(),
    {
        StableHtmlSerializer { writer: String::new() }
    }

    /// Writes the opening tag of an element, its attributes sorted by name.
    pub fn start_elem(&mut self, name: &str, attrs: &Vec<Attribute>)
        ensures
            final(self)@ == old(self)@ + start_markup(
                name@,
                sorted_by_name(attribute_views(attrs@)),
            ),
    {
        let sorted = sort_attributes(attrs);
        let markup = html5ever_start_elem(name, &sorted);
        self.writer.append(markup.as_str());
    }

    /// Writes the closing tag of an element.
    pub fn end_elem(&mut self, name: &str)
        ensures
            final(self)@ == old(self)@ + end_markup(name@),
    {
        let markup = html5ever_end_elem(name);
        self.writer.append(markup.as_str());
    }

    /// Writes a text, escaped.
    pub fn write_text(&mut self, text: &str)
        ensures
            final(self)@ == old(self)@ + escaped(text@, false),
    {
        let markup = html5ever_write_text(text);
        self.writer.append(markup.as_str());
    }

    /// Writes a comment; one that holds a shortcode is written verbatim.
    pub fn write_comment(&mut self, text: &str)
        ensures
            final(self)@ == old(self)@ + written_comment(text@),
    {
        let v = to_chars(text);
        if has_prefix(&v, "{{<") {
            self.writer.append(text);
            self.writer.append("\n");
            proof {
                reveal_strlit("\n");
                assert("\n"@ == seq!['\n']);
                assert(old(self)@ + text@ + seq!['\n'] == old(self)@ + text@.push('\n'));
            }
        } else {
            let markup = html5ever_write_comment(text);
            self.writer.append(markup.as_str());
        }
    }

    /// Writes a document type declaration.
    pub fn write_doctype(&mut self, name: &str)
        ensures
            final(self)@ == old(self)@ + doctype_markup(name@),
    {
        let markup = html5ever_write_doctype(name);
        self.writer.append(markup.as_str());
    }

    /// Writes a processing instruction.
    pub fn write_processing_instruction(&mut self, target: &str, data: &str)
        ensures
            final(self)@ == old(self)@ + instruction_markup(target@, data@),
    {
        let markup = html5ever_write_processing_instruction(target, data);
        self.writer.append(markup.as_str());
    }
}

//-------------------------------------------------------------------------
// Serializing a tree

/// One step of the walk over a tree: a node is entered or left.
#[derive(Debug)]
pub enum SerializeEvent {
    StartElem { name: String, attrs: Vec<Attribute> },
    EndElem { name: String },
    Text(String),
    Comment(String),
    Doctype(String),
    ProcessingInstruction { target: String, data: String },
}

/// The mathematical content of a `SerializeEvent`.
pub enum EventView {
    StartElem { name: Seq<char>, attrs: Seq<AttributeView> },
    EndElem { name: Seq<char> },
    Text(Seq<char>),
    Comment(Seq<char>),
    Doctype(Seq<char>),
    ProcessingInstruction { target: Seq<char>, data: Seq<char> },
}

impl View for SerializeEvent {
    type V = EventView;

    open spec fn view(&self) -> EventView {
        match self {
            SerializeEvent::StartElem { name, attrs } => EventView::StartElem {
                name: name@,
                attrs: attribute_views(attrs@),
            },
            SerializeEvent::EndElem { name } => EventView::EndElem { name: name@ },
            SerializeEvent::Text(text) => EventView::Text(text@),
            SerializeEvent::Comment(text) => EventView::Comment(text@),
            SerializeEvent::Doctype(name) => EventView::Doctype(name@),
            SerializeEvent::ProcessingInstruction { target, data } => {
                EventView::ProcessingInstruction { target: target@, data: data@ }
            },
        }
    }
}

/// The views of a sequence of events.
pub open spec fn event_views(events: Seq<SerializeEvent>) -> Seq<EventView> {
    Seq::new(events.len(), |i: int| events[i]@)
}

/// What one event is written as.
pub open spec fn event_markup(event: EventView) -> Seq<char> {
    match event {
        EventView::StartElem { name, attrs } => start_markup(name, sorted_by_name(attrs)),
        EventView::EndElem { name } => end_markup(name),
        EventView::Text(text) => escaped(text, false),
        EventView::Comment(text) => written_comment(text),
        EventView::Doctype(name) => doctype_markup(name),
        EventView::ProcessingInstruction { target, data } => instruction_markup(target, data),
    }
}

/// What a sequence of events is written as.
pub open spec fn events_markup(events: Seq<EventView>) -> Seq<char>
    decreases events.len(),
{
    if events.len() == 0 {
        Seq::empty()
    } else {
        events_markup(events.drop_last()) + event_markup(events.last())
    }
}

/// Two events are the same but for the order of the attributes of an
/// element, whose names are distinct.
pub open spec fn same_but_for_order(a: EventView, b: EventView) -> bool {
    match (a, b) {
        (
            EventView::StartElem { name: n1, attrs: a1 },
            EventView::StartElem { name: n2, attrs: a2 },
        ) => n1 == n2 && distinct_names(a1) && a1.to_multiset() == a2.to_multiset(),
        _ => a == b,
    }
}

/// Serialization is deterministic: two walks over the same tree, which
/// differ at most in the order in which the attributes of an element
/// arrive, are written as the same text.
pub proof fn lemma_stable_markup(a: Seq<EventView>, b: Seq<EventView>)
    requires
        a.len() == b.len(),
        forall|i: int| 0 <= i < a.len() ==> same_but_for_order(#[trigger] a[i], b[i]),
    ensures
        events_markup(a) == events_markup(b),
    decreases a.len(),
{
    if a.len() > 0 {
        lemma_stable_markup(a.drop_last(), b.drop_last());
        assert(same_but_for_order(a[a.len() - 1], b[a.len() - 1]));
        match (a.last(), b.last()) {
            (
                EventView::StartElem { name: n1, attrs: a1 },
                EventView::StartElem { name: n2, attrs: a2 },
            ) => {
                lemma_stable_order(a1, a2);
            },
            _ => {},
        }
    }
}

/// The attributes of an element are written in the order of their names.
pub proof fn lemma_written_in_name_order(attrs: Seq<AttributeView>)
    ensures
        in_name_order(sorted_by_name(attrs)),
        sorted_by_name(attrs).to_multiset() == attrs.to_multiset(),
{
    lemma_sorted_in_order(attrs);
    lemma_sorted_permutes(attrs);
}

/// Serializes the walk over a tree to HTML text, the attributes of every
/// element sorted by name.
pub fn stable_html(events: &Vec<SerializeEvent>) -> (r: String)
    ensures
        r@ == events_markup(event_views(events@)),
{
    let ghost all = event_views(events@);
    let mut ser = StableHtmlSerializer::new();
    let mut i: usize = 0;
    while i < events.len()
        invariant
            i <= events.len(),
            all == event_views(events@),
            ser@ == events_markup(all.take(i as int)),
        decreases events.len() - i,
    {
        assert(all.take(i + 1).drop_last() == all.take(i as int));
        match &events[i] {
            SerializeEvent::StartElem { name, attrs } => {
                ser.start_elem(name.as_str(), attrs);
            },
            SerializeEvent::EndElem { name } => {
                ser.end_elem(name.as_str());
            },
            SerializeEvent::Text(text) => {
                ser.write_text(text.as_str());
            },
            SerializeEvent::Comment(text) => {
                ser.write_comment(text.as_str());
            },
            SerializeEvent::Doctype(name) => {
                ser.write_doctype(name.as_str());
            },
            SerializeEvent::ProcessingInstruction { target, data } => {
                ser.write_processing_instruction(target.as_str(), data.as_str());
            },
        }
        i += 1;
    }
    assert(all.take(events.len() as int) == all);
    ser.writer
}

} // verus!
