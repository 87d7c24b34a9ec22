//! XML documents as a list of their nodes.

use vstd::prelude::*;

use crate::text;
use crate::text::{chars_at, chars_of, find_from, str_eq};

verus! {

#[derive(Debug)]
pub struct XmlAttribute {
    /// The namespace of a name with a prefix.
    pub namespace: Option<String>,
    pub name: String,
    pub value: String,
}

/// A node of a document. The first node of the list is the document itself; every
/// other names its parent by position.
#[derive(Debug)]
pub struct XmlNode {
    pub parent: Option<usize>,
    pub is_element: bool,
    /// The local name of an element.
    pub name: String,
    pub attributes: Vec<XmlAttribute>,
    /// The text at the beginning of an element, or the text that the node is.
    pub text: Option<String>,
}

#[verifier::ext_equal]
pub struct XmlAttributeView {
    pub namespace: Option<Seq<char>>,
    pub name: Seq<char>,
    pub value: Seq<char>,
}

#[verifier::ext_equal]
pub struct XmlNodeView {
    pub parent: Option<usize>,
    pub is_element: bool,
    pub name: Seq<char>,
    pub attributes: Seq<XmlAttributeView>,
    pub text: Option<Seq<char>>,
}

impl View for XmlAttribute {
    type V = XmlAttributeView;

    open spec fn view(&self) -> XmlAttributeView {
        XmlAttributeView {
            namespace: text::opt(self.namespace),
            name: self.name@,
            value: self.value@,
        }
    }
}

impl View for XmlNode {
    type V = XmlNodeView;

    open spec fn view(&self) -> XmlNodeView {
        XmlNodeView {
            parent: self.parent,
            is_element: self.is_element,
            name: self.name@,
            attributes: self.attributes@.map_values(|a: XmlAttribute| a@),
            text: text::opt(self.text),
        }
    }
}

pub open spec fn node_views(v: Seq<XmlNode>) -> Seq<XmlNodeView> {
    v.map_values(|n: XmlNode| n@)
}

/// The nodes that `roxmltree::Document::parse` reads from a text, in document
/// order, or the message of the error.
pub uninterp spec fn xml_nodes(s: Seq<char>) -> Result<Seq<XmlNodeView>, Seq<char>>;

/// Whether node `i` is an element of the given name inside node `parent`.
pub open spec fn is_child(nodes: Seq<XmlNodeView>, i: int, parent: int, name: Seq<char>) -> bool {
    nodes[i].parent == Some(parent as usize) && nodes[i].is_element && nodes[i].name == name
}

// ---------------------------------------------------------------------------
// How deep elements nest
// ---------------------------------------------------------------------------

/// The deepest nesting of elements that is read. The parser calls itself for every level
/// and takes about six kilobytes of the stack each time where it is built without
/// optimisation: this many levels fit the two megabytes that a thread has by default.
pub const MAX_DEPTH: usize = 256;

/// The position behind the first occurrence of a text at or after `from`; the length
/// where there is none.
pub open spec fn past(s: Seq<char>, end: Seq<char>, from: int) -> int {
    let i = text::find(s, end, from);
    if i < 0 {
        s.len() as int
    } else {
        i + end.len()
    }
}

/// The `>` that ends a tag, looked for from `i` on outside quotation marks; the length
/// where there is none.
pub open spec fn tag_end(s: Seq<char>, i: int) -> int
    decreases s.len() - i,
{
    if i < 0 || i >= s.len() {
        s.len() as int
    } else if s[i] == '>' {
        i
    } else if s[i] == '"' || s[i] == '\'' {
        let close = text::first_of(s, seq![s[i]], i + 1);
        if i < close < s.len() {
            tag_end(s, close + 1)
        } else {
            s.len() as int
        }
    } else {
        tag_end(s, i + 1)
    }
}

/// How deep elements nest from position `i` on, where `depth` elements are open there.
/// Comments, character data and processing instructions are passed over.
pub open spec fn nesting_from(s: Seq<char>, i: int, depth: nat) -> nat
    decreases s.len() - i,
{
    if i < 0 || i >= s.len() {
        depth
    } else if s[i] != '<' {
        nesting_from(s, i + 1, depth)
    } else {
        let passed = if text::has_at(s, i, "<!--"@) {
            past(s, "-->"@, i + 4)
        } else if text::has_at(s, i, "<![CDATA["@) {
            past(s, "]]>"@, i + 9)
        } else if text::has_at(s, i, "<?"@) {
            past(s, "?>"@, i + 2)
        } else {
            -1
        };
        let end = tag_end(s, i + 1);
        if passed >= 0 {
            if i < passed < s.len() {
                nesting_from(s, passed, depth)
            } else {
                depth
            }
        } else if text::has_at(s, i, "</"@) {
            nesting_from(
                s,
                i + 1,
                if depth > 0 {
                    (depth - 1) as nat
                } else {
                    0
                },
            )
        } else if i < end < s.len() {
            let rest = nesting_from(
                s,
                end + 1,
                if s[end - 1] == '/' {
                    depth
                } else {
                    depth + 1
                },
            );
            if rest > depth + 1 {
                rest
            } else {
                depth + 1
            }
        } else {
            depth + 1
        }
    }
}

/// How deep the elements of a text nest.
pub open spec fn nesting(s: Seq<char>) -> nat {
    nesting_from(s, 0, 0)
}

fn find_past(s: &[char], end: &str, from: usize) -> (r: usize)
    requires
        from <= s.len(),
    ensures
        r == past(s@, end@, from as int),
        from <= r <= s.len(),
{
    let e = chars_of(end);
    proof {
        text::lemma_find(s@, end@, from as int);
    }
    match find_from(s, e.as_slice(), from) {
        Some(i) => i + e.len(),
        None => s.len(),
    }
}

fn find_tag_end(s: &[char], from: usize) -> (r: usize)
    requires
        from <= s.len(),
    ensures
        r == tag_end(s@, from as int),
        from <= r <= s.len(),
{
    let mut i: usize = from;
    while i < s.len()
        invariant
            from <= i <= s.len(),
            tag_end(s@, from as int) == tag_end(s@, i as int),
        decreases s.len() - i,
    {
        if s[i] == '>' {
            return i;
        }
        if s[i] == '"' || s[i] == '\'' {
            let mark: char = s[i];
            let mut close: usize = i + 1;
            while close < s.len() && s[close] != mark
                invariant
                    i < close <= s.len(),
                    mark == s@[i as int],
                    text::first_of(s@, seq![mark], i + 1) == text::first_of(
                        s@,
                        seq![mark],
                        close as int,
                    ),
                decreases s.len() - close,
            {
                assert(!seq![mark].contains(s@[close as int]));
                close += 1;
            }
            if close < s.len() {
                assert(seq![mark][0] == s@[close as int]);
            }
            assert(text::first_of(s@, seq![mark], i + 1) == close);
            if close >= s.len() {
                return s.len();
            }
            i = close + 1;
        } else {
            i += 1;
        }
    }
    i
}

fn text_at(s: &[char], i: usize, needle: &str) -> (r: bool)
    requires
        i <= s.len(),
    ensures
        r == text::has_at(s@, i as int, needle@),
{
    chars_at(s, i, chars_of(needle).as_slice())
}

/// Tells whether the elements of a text nest no deeper than is read.
pub fn is_shallow(s: &str) -> (r: bool)
    ensures
        r == (nesting(s@) <= MAX_DEPTH),
{
    let all = chars_of(s);
    let cs: &[char] = all.as_slice();
    let mut depth: usize = 0;
    let mut i: usize = 0;
    proof {
        reveal_strlit("<!--");
        reveal_strlit("<![CDATA[");
        reveal_strlit("<?");
        assert("<!--"@.len() == 4);
        assert("<![CDATA["@.len() == 9);
        assert("<?"@.len() == 2);
    }
    while i < cs.len()
        invariant
            i <= cs.len(),
            cs@ == s@,
            depth <= MAX_DEPTH,
            "<!--"@.len() == 4,
            "<![CDATA["@.len() == 9,
            "<?"@.len() == 2,
            (nesting(s@) <= MAX_DEPTH) == (nesting_from(s@, i as int, depth as nat) <= MAX_DEPTH),
        decreases cs.len() - i,
    {
        if cs[i] != '<' {
            i += 1;
        } else if text_at(cs, i, "<!--") {
            i = find_past(cs, "-->", i + 4);
        } else if text_at(cs, i, "<![CDATA[") {
            i = find_past(cs, "]]>", i + 9);
        } else if text_at(cs, i, "<?") {
            i = find_past(cs, "?>", i + 2);
        } else if text_at(cs, i, "</") {
            if depth > 0 {
                depth -= 1;
            }
            i += 1;
        } else {
            if depth == MAX_DEPTH {
                return false;
            }
            let end = find_tag_end(cs, i + 1);
            if end >= cs.len() {
                return true;
            }
            if cs[end - 1] != '/' {
                depth += 1;
            }
            i = end + 1;
        }
    }
    true
}

// ---------------------------------------------------------------------------
// Parsing
// ---------------------------------------------------------------------------

/// `roxmltree::Document::parse`, with every node of the document in document
/// order: its parent, the local name and attributes of an element, its text. The
/// result is a function of the text. A document that parses has an element at its
/// top. It calls itself for every element inside another, so texts that nest deeper
/// than [`MAX_DEPTH`] are left out.
#[verifier::external_body]
pub(crate) fn parse_xml(s: &str) -> (r: Result<Vec<XmlNode>, String>)
    requires
        nesting(s@) <= MAX_DEPTH,
    ensures
        match r {
            Ok(v) => xml_nodes(s@) == Ok::<Seq<XmlNodeView>, Seq<char>>(node_views(v@)),
            Err(e) => xml_nodes(s@) == Err::<Seq<XmlNodeView>, Seq<char>>(e@),
        },
        r matches Ok(v) ==> top_element(node_views(v@), 0) < v@.len(),
{
    let doc = roxmltree::Document::parse(s).map_err(|e| e.to_string())?;
    let attribute = |a: roxmltree::Attribute| XmlAttribute {
        namespace: a.namespace().map(str::to_string),
        name: a.name().to_string(),
        value: a.value().to_string(),
    };
    Ok(doc.descendants().map(|n| XmlNode {
        parent: n.parent().map(|p| p.id().get_usize()),
        is_element: n.is_element(),
        name: n.tag_name().name().to_string(),
        attributes: n.attributes().map(attribute).collect(),
        text: n.text().map(str::to_string),
    }).collect())
}

/// The first element at or after `from` whose parent is the document; the number
/// of nodes where there is none.
pub open spec fn top_element(nodes: Seq<XmlNodeView>, from: int) -> int
    decreases nodes.len() - from,
{
    if from < 0 || from >= nodes.len() {
        nodes.len() as int
    } else if nodes[from].parent == Some(0usize) && nodes[from].is_element {
        from
    } else {
        top_element(nodes, from + 1)
    }
}

/// The first element of the given name inside node `i`, at or after `from`; the
/// number of nodes where there is none.
pub open spec fn child_from(
    nodes: Seq<XmlNodeView>,
    i: int,
    name: Seq<char>,
    from: int,
) -> int
    decreases nodes.len() - from,
{
    if from < 0 || from >= nodes.len() {
        nodes.len() as int
    } else if is_child(nodes, from, i, name) {
        from
    } else {
        child_from(nodes, i, name, from + 1)
    }
}

/// The first element of the given name inside node `i`.
pub open spec fn child(nodes: Seq<XmlNodeView>, i: int, name: Seq<char>) -> Option<int> {
    let c = child_from(nodes, i, name, 0);
    if c < nodes.len() {
        Some(c)
    } else {
        None
    }
}

/// The elements of the given name inside node `i` among the first `n` nodes, in
/// order.
pub open spec fn children_upto(nodes: Seq<XmlNodeView>, i: int, name: Seq<char>, n: int) -> Seq<int>
    decreases n,
{
    if n <= 0 {
        Seq::empty()
    } else if is_child(nodes, n - 1, i, name) {
        children_upto(nodes, i, name, n - 1).push(n - 1)
    } else {
        children_upto(nodes, i, name, n - 1)
    }
}

/// The elements of the given name inside node `i`, in order.
pub open spec fn children(nodes: Seq<XmlNodeView>, i: int, name: Seq<char>) -> Seq<int> {
    children_upto(nodes, i, name, nodes.len() as int)
}

/// The value of the first attribute without namespace of the given name, at or
/// after position `from`.
pub open spec fn attribute_from(
    attrs: Seq<XmlAttributeView>,
    name: Seq<char>,
    from: int,
) -> Option<Seq<char>>
    decreases attrs.len() - from,
{
    if from < 0 || from >= attrs.len() {
        None
    } else if attrs[from].namespace is None && attrs[from].name == name {
        Some(attrs[from].value)
    } else {
        attribute_from(attrs, name, from + 1)
    }
}

/// The value of an attribute of node `i`.
pub open spec fn attribute(nodes: Seq<XmlNodeView>, i: int, name: Seq<char>) -> Option<Seq<char>> {
    attribute_from(nodes[i].attributes, name, 0)
}

/// Whether the document has an element of the given name.
pub open spec fn has_element(nodes: Seq<XmlNodeView>, name: Seq<char>) -> bool {
    exists|i: int|
        0 <= i < nodes.len() && (#[trigger] nodes[i]).is_element && nodes[i].name == name
}

pub fn find_top(nodes: &Vec<XmlNode>) -> (r: usize)
    ensures
        r == top_element(node_views(nodes@), 0),
        r <= nodes.len(),
{
    let ghost all = node_views(nodes@);
    let mut i: usize = 0;
    while i < nodes.len()
        invariant
            i <= nodes.len(),
            all == node_views(nodes@),
            top_element(all, 0) == top_element(all, i as int),
        decreases nodes.len() - i,
    {
        assert(all[i as int] == nodes@[i as int]@);
        let below_document: bool = match nodes[i].parent {
            Some(p) => p == 0,
            None => false,
        };
        if below_document && nodes[i].is_element {
            return i;
        }
        i += 1;
    }
    i
}

fn child_test(nodes: &Vec<XmlNode>, i: usize, parent: usize, name: &str) -> (r: bool)
    requires
        i < nodes.len(),
    ensures
        r == is_child(node_views(nodes@), i as int, parent as int, name@),
{
    assert(node_views(nodes@)[i as int] == nodes@[i as int]@);
    let inside: bool = match nodes[i].parent {
        Some(p) => p == parent,
        None => false,
    };
    inside && nodes[i].is_element && str_eq(nodes[i].name.as_str(), name)
}

pub fn find_child(nodes: &Vec<XmlNode>, i: usize, name: &str) -> (r: Option<usize>)
    ensures
        match r {
            Some(c) => c < nodes.len() && child(node_views(nodes@), i as int, name@) == Some(
                c as int,
            ),
            None => child(node_views(nodes@), i as int, name@) is None,
        },
{
    let ghost all = node_views(nodes@);
    let mut c: usize = 0;
    while c < nodes.len()
        invariant
            c <= nodes.len(),
            all == node_views(nodes@),
            child_from(all, i as int, name@, 0) == child_from(all, i as int, name@, c as int),
        decreases nodes.len() - c,
    {
        if child_test(nodes, c, i, name) {
            return Some(c);
        }
        c += 1;
    }
    None
}

/// A list of positions as integers.
pub open spec fn ints(v: Seq<usize>) -> Seq<int> {
    v.map_values(|x: usize| x as int)
}

pub fn find_children(nodes: &Vec<XmlNode>, i: usize, name: &str) -> (r: Vec<usize>)
    ensures
        ints(r@) == children(node_views(nodes@), i as int, name@),
        forall|j: int| 0 <= j < r@.len() ==> #[trigger] r@[j] < nodes.len(),
{
    let mut out: Vec<usize> = Vec::new();
    let mut c: usize = 0;
    assert(ints(out@) =~= Seq::empty());
    while c < nodes.len()
        invariant
            c <= nodes.len(),
            ints(out@) == children_upto(node_views(nodes@), i as int, name@, c as int),
            forall|j: int| 0 <= j < out@.len() ==> #[trigger] out@[j] < nodes.len(),
        decreases nodes.len() - c,
    {
        if child_test(nodes, c, i, name) {
            let ghost before = out@;
            out.push(c);
            assert(ints(out@) =~= ints(before).push(c as int));
        }
        c += 1;
    }
    out
}

pub fn get_attribute<'a>(nodes: &'a Vec<XmlNode>, i: usize, name: &str) -> (r: Option<&'a String>)
    requires
        i < nodes.len(),
    ensures
        match r {
            Some(v) => attribute(node_views(nodes@), i as int, name@) == Some(v@),
            None => attribute(node_views(nodes@), i as int, name@) is None,
        },
{
    let attrs: &Vec<XmlAttribute> = &nodes[i].attributes;
    let ghost all = node_views(nodes@)[i as int].attributes;
    assert(all =~= attrs@.map_values(|a: XmlAttribute| a@));
    let mut j: usize = 0;
    while j < attrs.len()
        invariant
            j <= attrs.len(),
            all == node_views(nodes@)[i as int].attributes,
            all == attrs@.map_values(|a: XmlAttribute| a@),
            attribute_from(all, name@, 0) == attribute_from(all, name@, j as int),
        decreases attrs.len() - j,
    {
        assert(all[j as int] == attrs@[j as int]@);
        if attrs[j].namespace.is_none() && str_eq(attrs[j].name.as_str(), name) {
            return Some(&attrs[j].value);
        }
        j += 1;
    }
    None
}

pub fn any_element(nodes: &Vec<XmlNode>, name: &str) -> (r: bool)
    ensures
        r == has_element(node_views(nodes@), name@),
{
    let ghost all = node_views(nodes@);
    let mut i: usize = 0;
    while i < nodes.len()
        invariant
            i <= nodes.len(),
            all == node_views(nodes@),
            forall|j: int|
                0 <= j < i ==> !((#[trigger] all[j]).is_element && all[j].name == name@),
        decreases nodes.len() - i,
    {
        assert(all[i as int] == nodes@[i as int]@);
        if nodes[i].is_element && str_eq(nodes[i].name.as_str(), name) {
            return true;
        }
        i += 1;
    }
    false
}

} // verus!
