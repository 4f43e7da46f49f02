//! The text of an XML buffer and the labels of the nodes of its tree.

use vstd::prelude::*;
use vstd::string::StringExecFns;
use vstd::utf8::{decode_utf8, valid_utf8};
use crate::text::{
    chars_of,
    is_whitespace,
    lossy_text,
    lossy_utf8,
    reads,
    text_of,
    unicode_whitespace,
};

verus! {

/// The text of an XML buffer.
#[derive(Debug)]
pub struct XmlData {
    /// The buffer read as UTF-8, malformed parts replaced.
    pub inner: String,
}

impl XmlData {
    /// Reads `binary_data` as text.
    pub fn parse(binary_data: &[u8]) -> (data: XmlData)
        ensures
            data.inner@ == lossy_utf8(binary_data@),
            valid_utf8(binary_data@) ==> data.inner@ == decode_utf8(binary_data@),
    {
        XmlData { inner: lossy_text(binary_data) }
    }
}

/// Label of an element: its tag name in angle brackets, with the value of
/// its `id` attribute if it has one.
pub open spec fn element_label_spec(tag: Seq<char>, id: Option<Seq<char>>) -> Seq<char> {
    match id {
        Some(value) => (seq!['<'] + tag + " id=\""@ + value).push('"').push('>'),
        None => (seq!['<'] + tag).push('>'),
    }
}

/// Label of an attribute: `@`, the name, and the value in quotes.
pub open spec fn attribute_label_spec(name: Seq<char>, value: Seq<char>) -> Seq<char> {
    (seq!['@'] + name + "=\""@ + value).push('"')
}

/// Label of a comment: its text between the comment marks.
pub open spec fn comment_label_spec(text: Option<Seq<char>>) -> Seq<char> {
    "<!-- "@ + match text {
        Some(t) => t,
        None => Seq::empty(),
    } + " -->"@
}

/// Position of the first character from `at` on that is no white space.
pub open spec fn skip_whitespace(s: Seq<char>, at: int) -> int
    decreases s.len() - at,
{
    if at < 0 || at >= s.len() || !unicode_whitespace(s[at]) {
        at
    } else {
        skip_whitespace(s, at + 1)
    }
}

/// Position behind the last character before `end` that is no white space.
pub open spec fn drop_whitespace(s: Seq<char>, end: int) -> int
    decreases end,
{
    if end <= 0 || end > s.len() || !unicode_whitespace(s[end - 1]) {
        end
    } else {
        drop_whitespace(s, end - 1)
    }
}

/// The text without the white space at its ends.
pub open spec fn trim_spec(s: Seq<char>) -> Seq<char> {
    let from = skip_whitespace(s, 0);
    let to = drop_whitespace(s, s.len() as int);
    if from < to {
        s.subrange(from, to)
    } else {
        Seq::empty()
    }
}

/// Label of a text node: its text without the white space at its ends, or
/// nothing if that leaves nothing.
pub open spec fn text_label_spec(text: Option<Seq<char>>) -> Option<Seq<char>> {
    match text {
        Some(t) => if trim_spec(t).len() > 0 {
            Some(trim_spec(t))
        } else {
            None
        },
        None => None,
    }
}

/// Format element label
pub fn format_element_label(tag: &str, id: Option<&str>) -> (label: String)
    ensures
        label@ == element_label_spec(
            tag@,
            match id {
                Some(value) => Some(value@),
                None => None,
            },
        ),
{
    let mut label = String::from_str("<");
    proof {
        reveal_strlit("<");
    }
    assert(label@ =~= seq!['<']);
    label.append(tag);
    if let Some(value) = id {
        label.append(" id=\"");
        label.append(value);
        label.push('"');
    }
    label.push('>');
    label
}

/// Formats the label of an attribute.
pub fn attribute_label(name: &str, value: &str) -> (label: String)
    ensures
        label@ == attribute_label_spec(name@, value@),
{
    let mut label = String::from_str("@");
    proof {
        reveal_strlit("@");
    }
    assert(label@ =~= seq!['@']);
    label.append(name);
    label.append("=\"");
    label.append(value);
    label.push('"');
    label
}

/// Formats the label of a comment.
pub fn comment_label(text: Option<&str>) -> (label: String)
    ensures
        label@ == comment_label_spec(
            match text {
                Some(t) => Some(t@),
                None => None,
            },
        ),
{
    let mut label = String::from_str("<!-- ");
    if let Some(t) = text {
        label.append(t);
    } else {
        assert(label@ + Seq::<char>::empty() =~= label@);
    }
    label.append(" -->");
    label
}

/// Formats the label of a text node.
pub fn text_label(text: Option<&str>) -> (label: Option<String>)
    ensures
        match label {
            Some(l) => text_label_spec(
                match text {
                    Some(t) => Some(t@),
                    None => None,
                },
            ) == Some(l@),
            None => text_label_spec(
                match text {
                    Some(t) => Some(t@),
                    None => None,
                },
            ) is None,
        },
{
    let t = match text {
        Some(t) => t,
        None => {
            return None;
        },
    };
    let chars = chars_of(t);
    let mut from: usize = 0;
    while from < chars.len() && is_whitespace(chars[from])
        invariant
            from <= chars.len(),
            skip_whitespace(chars@, 0) == skip_whitespace(chars@, from as int),
        decreases chars.len() - from,
    {
        from += 1;
    }
    let mut to: usize = chars.len();
    while to > 0 && is_whitespace(chars[to - 1])
        invariant
            to <= chars.len(),
            drop_whitespace(chars@, chars@.len() as int) == drop_whitespace(chars@, to as int),
        decreases to,
    {
        to -= 1;
    }
    if from < to {
        Some(text_of(&chars, from, to))
    } else {
        None
    }
}

/// One node of an XML document, from its root element on in document
/// order.
#[derive(Debug)]
pub struct XmlNode {
    /// Number of nodes from this one up to the root of the document.
    pub depth: usize,
    /// Whether the node is an element.
    pub is_element: bool,
    /// Whether the node is a text.
    pub is_text: bool,
    /// Whether the node is a comment.
    pub is_comment: bool,
    /// The tag name of an element.
    pub tag: String,
    /// The attributes by local name and value.
    pub attributes: Vec<(String, String)>,
    /// The text of a text or a comment, or the text that an element starts
    /// with.
    pub text: Option<String>,
}

/// An `XmlNode` as a mathematical value.
pub struct XmlNodeView {
    pub depth: usize,
    pub is_element: bool,
    pub is_text: bool,
    pub is_comment: bool,
    pub tag: Seq<char>,
    pub attributes: Seq<(Seq<char>, Seq<char>)>,
    pub text: Option<Seq<char>>,
}

/// The view of an optional text.
pub open spec fn text_view(text: Option<String>) -> Option<Seq<char>> {
    match text {
        Some(t) => Some(t@),
        None => None,
    }
}

impl View for XmlNode {
    type V = XmlNodeView;

    open spec fn view(&self) -> XmlNodeView {
        XmlNodeView {
            depth: self.depth,
            is_element: self.is_element,
            is_text: self.is_text,
            is_comment: self.is_comment,
            tag: self.tag@,
            attributes: Seq::new(
                self.attributes@.len(),
                |i: int| (self.attributes@[i].0@, self.attributes@[i].1@),
            ),
            text: text_view(self.text),
        }
    }
}

/// The nodes of the document that `Document::parse` reads from a text, or
/// the words of its error.
pub uninterp spec fn xml_document(text: Seq<char>) -> Result<Seq<XmlNodeView>, Seq<char>>;

/// The view of what was read from a text.
pub open spec fn document_view(read: Result<Vec<XmlNode>, String>) -> Result<
    Seq<XmlNodeView>,
    Seq<char>,
> {
    match read {
        Ok(nodes) => Ok(Seq::new(nodes@.len(), |i: int| nodes@[i]@)),
        Err(words) => Err(words@),
    }
}

/// `Document::parse` reads a text as an XML document. The result lists the
/// root element and its descendants in document order, each with what the
/// node's accessors tell of it, or gives the words of the parser's error; it
/// is determined by the text.
#[verifier::external_body]
pub(crate) fn read_xml(text: &str) -> (read: Result<Vec<XmlNode>, String>)
    ensures
        document_view(read) == xml_document(text@),
{
    let doc = roxmltree::Document::parse(text).map_err(|e| e.to_string())?;
    let nodes = doc.root_element().descendants().map(|n| XmlNode {
        depth: n.ancestors().count(),
        is_element: n.is_element(),
        is_text: n.is_text(),
        is_comment: n.is_comment(),
        tag: n.tag_name().name().to_string(),
        attributes: n.attributes().map(|a| (a.name().to_string(), a.value().to_string())).collect(),
        text: n.text().map(|t| t.to_string()),
    });
    Ok(nodes.collect())
}

/// The value of the first attribute from position `at` on whose local name
/// is `id`.
pub open spec fn id_from(attributes: Seq<(Seq<char>, Seq<char>)>, at: int) -> Option<Seq<char>>
    decreases attributes.len() - at,
{
    if at < 0 || at >= attributes.len() {
        None
    } else if attributes[at].0 == "id"@ {
        Some(attributes[at].1)
    } else {
        id_from(attributes, at + 1)
    }
}

/// What is shown for a node: the label of an element with the value of its
/// first attribute `id`, the trimmed text of a text unless nothing is left
/// of it, the label of a comment, and nothing for any other node.
pub open spec fn node_label_spec(node: XmlNodeView) -> Option<Seq<char>> {
    if node.is_element {
        Some(element_label_spec(node.tag, id_from(node.attributes, 0)))
    } else if node.is_text {
        text_label_spec(node.text)
    } else if node.is_comment {
        Some(comment_label_spec(node.text))
    } else {
        None
    }
}

/// Position behind the nodes below node `at`, searched from `from` on: the
/// first node that lies no deeper than node `at`, or the end.
pub open spec fn subtree_end_spec(nodes: Seq<XmlNode>, at: int, from: int) -> int
    decreases nodes.len() - from,
{
    if from < 0 || from >= nodes.len() || nodes[from].depth <= nodes[at].depth {
        from
    } else {
        subtree_end_spec(nodes, at, from + 1)
    }
}

/// The text as an optional string slice.
fn as_text(text: &Option<String>) -> (slice: Option<&str>)
    ensures
        match slice {
            Some(t) => text_view(*text) == Some(t@),
            None => text is None,
        },
{
    match text {
        Some(t) => Some(t.as_str()),
        None => None,
    }
}

impl XmlNode {
    /// The value of the node's first attribute `id`, if it has one.
    pub fn id(&self) -> (id: Option<&str>)
        ensures
            match id {
                Some(value) => id_from(self@.attributes, 0) == Some(value@),
                None => id_from(self@.attributes, 0) is None,
            },
    {
        let mut at: usize = 0;
        while at < self.attributes.len()
            invariant
                at <= self.attributes.len(),
                id_from(self@.attributes, 0) == id_from(self@.attributes, at as int),
            decreases self.attributes.len() - at,
        {
            let pair = &self.attributes[at];
            assert(self@.attributes[at as int] == (pair.0@, pair.1@));
            if reads(&pair.0, "id") {
                return Some(pair.1.as_str());
            }
            at += 1;
        }
        None
    }

    /// What is shown for the node.
    pub fn label(&self) -> (label: Option<String>)
        ensures
            text_view(label) == node_label_spec(self@),
    {
        if self.is_element {
            Some(format_element_label(self.tag.as_str(), self.id()))
        } else if self.is_text {
            text_label(as_text(&self.text))
        } else if self.is_comment {
            Some(comment_label(as_text(&self.text)))
        } else {
            None
        }
    }

    /// The labels of the node's attributes, in their order.
    pub fn attribute_labels(&self) -> (labels: Vec<String>)
        ensures
            labels.len() == self@.attributes.len(),
            forall|i: int|
                0 <= i < labels.len() ==> (#[trigger] labels[i])@ == attribute_label_spec(
                    self@.attributes[i].0,
                    self@.attributes[i].1,
                ),
    {
        let mut labels: Vec<String> = Vec::new();
        let mut at: usize = 0;
        while at < self.attributes.len()
            invariant
                at <= self.attributes.len(),
                labels.len() == at,
                forall|i: int|
                    0 <= i < at ==> (#[trigger] labels[i])@ == attribute_label_spec(
                        self@.attributes[i].0,
                        self@.attributes[i].1,
                    ),
            decreases self.attributes.len() - at,
        {
            let pair = &self.attributes[at];
            labels.push(attribute_label(pair.0.as_str(), pair.1.as_str()));
            at += 1;
        }
        labels
    }
}

/// Finds the position behind the nodes below node `at`.
pub fn subtree_end(nodes: &Vec<XmlNode>, at: usize) -> (end: usize)
    requires
        at < nodes.len(),
    ensures
        end == subtree_end_spec(nodes@, at as int, at + 1),
        at < end <= nodes.len(),
        forall|i: int| at < i < end ==> (#[trigger] nodes[i]).depth > nodes[at as int].depth,
        end < nodes.len() ==> nodes[end as int].depth <= nodes[at as int].depth,
{
    let mut end: usize = at + 1;
    while end < nodes.len() && nodes[end].depth > nodes[at].depth
        invariant
            at < end <= nodes.len(),
            subtree_end_spec(nodes@, at as int, at + 1) == subtree_end_spec(
                nodes@,
                at as int,
                end as int,
            ),
            forall|i: int| at < i < end ==> (#[trigger] nodes[i]).depth > nodes[at as int].depth,
        decreases nodes.len() - end,
    {
        end += 1;
    }
    end
}

/// The positions of the children of node `at`: the node behind it, unless
/// the nodes below it end there, and after each child the node behind the
/// nodes below that child, up to the end of the nodes below node `at`.
pub fn children(nodes: &Vec<XmlNode>, at: usize) -> (kids: Vec<usize>)
    requires
        at < nodes.len(),
    ensures
        kids.len() == 0 <==> subtree_end_spec(nodes@, at as int, at + 1) == at + 1,
        kids.len() > 0 ==> kids[0] == at + 1,
        forall|k: int|
            0 <= k < kids.len() ==> at < #[trigger] kids[k] < subtree_end_spec(
                nodes@,
                at as int,
                at + 1,
            ),
        forall|k: int|
            0 <= k < kids.len() - 1 ==> kids[k + 1] == subtree_end_spec(
                nodes@,
                #[trigger] kids[k] as int,
                kids[k] + 1,
            ),
        kids.len() > 0 ==> subtree_end_spec(
            nodes@,
            kids[kids.len() - 1] as int,
            kids[kids.len() - 1] + 1,
        ) == subtree_end_spec(nodes@, at as int, at + 1),
{
    let end = subtree_end(nodes, at);
    let mut kids: Vec<usize> = Vec::new();
    let mut child: usize = at + 1;
    while child < end
        invariant
            at < nodes.len(),
            end == subtree_end_spec(nodes@, at as int, at + 1),
            at < child <= end <= nodes.len(),
            forall|i: int| at < i < end ==> (#[trigger] nodes[i]).depth > nodes[at as int].depth,
            end < nodes.len() ==> nodes[end as int].depth <= nodes[at as int].depth,
            kids.len() == 0 <==> child == at + 1,
            kids.len() > 0 ==> kids[0] == at + 1,
            forall|k: int| 0 <= k < kids.len() ==> at < #[trigger] kids[k] < end,
            forall|k: int|
                0 <= k < kids.len() - 1 ==> kids[k + 1] == subtree_end_spec(
                    nodes@,
                    #[trigger] kids[k] as int,
                    kids[k] + 1,
                ),
            kids.len() > 0 ==> subtree_end_spec(
                nodes@,
                kids[kids.len() - 1] as int,
                kids[kids.len() - 1] + 1,
            ) == child,
        decreases end - child,
    {
        let next = subtree_end(nodes, child);
        assert(next <= end) by {
            if next > end {
                assert(nodes[end as int].depth > nodes[child as int].depth);
            }
        }
        kids.push(child);
        child = next;
    }
    kids
}

impl XmlData {
    /// Reads the text as an XML document.
    pub fn tree(&self) -> (read: Result<Vec<XmlNode>, String>)
        ensures
            document_view(read) == xml_document(self.inner@),
    {
        read_xml(self.inner.as_str())
    }
}

} // verus!
