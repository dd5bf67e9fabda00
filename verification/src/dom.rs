//! The document model: an owned HTML tree of elements, text and other nodes,
//! with its mathematical view and the queries the extraction logic needs.

use vstd::prelude::*;

verus! {

use ego_tree::iter::Edge;
use scraper::Html;
use scraper::Node;

/// Mathematical view of one node of the document tree.
pub ghost enum NodeView {
    Text(Seq<char>),
    Elem(ElemView),
    Other,
}

/// Mathematical view of an element: tag name, attributes in document order,
/// children in document order.
pub ghost struct ElemView {
    pub tag: Seq<char>,
    pub attrs: Seq<(Seq<char>, Seq<char>)>,
    pub children: Seq<NodeView>,
}

/// One node of a parsed HTML document: a text node, an element, or any other
/// kind of node (comment, doctype, processing instruction), which the
/// extraction logic ignores.
pub enum HtmlNode {
    Text(String),
    Element(HtmlElement),
    Other,
}

/// An element of a parsed HTML document, owning its attributes and children.
pub struct HtmlElement {
    pub tag: String,
    pub attrs: Vec<(String, String)>,
    pub children: Vec<HtmlNode>,
}

/// The mathematical view of one node.
pub open spec fn node_view(n: HtmlNode) -> NodeView
    decreases n,
{
    match n {
        HtmlNode::Text(t) => NodeView::Text(t@),
        HtmlNode::Element(e) => NodeView::Elem(elem_view(e)),
        HtmlNode::Other => NodeView::Other,
    }
}

/// The mathematical view of an element, its subtree included.
pub open spec fn elem_view(e: HtmlElement) -> ElemView
    decreases e,
{
    ElemView {
        tag: e.tag@,
        attrs: e.attrs.deep_view(),
        children: nodes_view(e.children@),
    }
}

/// The mathematical views of a list of sibling nodes, in order.
pub open spec fn nodes_view(v: Seq<HtmlNode>) -> Seq<NodeView>
    decreases v,
{
    if v.len() == 0 {
        Seq::empty()
    } else {
        seq![node_view(v[0])] + nodes_view(v.drop_first())
    }
}

impl View for HtmlNode {
    type V = NodeView;

    open spec fn view(&self) -> NodeView {
        node_view(*self)
    }
}

impl View for HtmlElement {
    type V = ElemView;

    open spec fn view(&self) -> ElemView {
        elem_view(*self)
    }
}

/// The value paired with the first occurrence of `name` in an ordered
/// name/value list (attributes of an element, cookies of a response).
/// Parsed documents carry each attribute name at most once, so for
/// attributes "first" is simply "the" match.
pub open spec fn pairs_lookup(attrs: Seq<(Seq<char>, Seq<char>)>, name: Seq<char>) -> Option<
    Seq<char>,
>
    decreases attrs.len(),
{
    if attrs.len() == 0 {
        None
    } else if attrs[0].0 == name {
        Some(attrs[0].1)
    } else {
        pairs_lookup(attrs.drop_first(), name)
    }
}

/// The value of the element's attribute `name`, if present.
pub open spec fn elem_attr(e: ElemView, name: Seq<char>) -> Option<Seq<char>> {
    pairs_lookup(e.attrs, name)
}

pub broadcast proof fn lemma_nodes_view_len(v: Seq<HtmlNode>)
    ensures
        #[trigger] nodes_view(v).len() == v.len(),
    decreases v,
{
    if v.len() > 0 {
        lemma_nodes_view_len(v.drop_first());
    }
}

pub broadcast proof fn lemma_nodes_view_index(v: Seq<HtmlNode>, i: int)
    requires
        0 <= i < v.len(),
    ensures
        nodes_view(v).len() == v.len(),
        #[trigger] nodes_view(v)[i] == node_view(v[i]),
    decreases v,
{
    lemma_nodes_view_len(v);
    if i > 0 {
        lemma_nodes_view_index(v.drop_first(), i - 1);
    }
}

/// The value of the element's attribute `name`, if present, as a borrowed
/// string.
pub fn get_attr<'a>(e: &'a HtmlElement, name: &str) -> (r: Option<&'a String>)
    ensures
        match r {
            Some(v) => elem_attr(e@, name@) == Some(v@),
            None => elem_attr(e@, name@) is None,
        },
{
    let mut i: usize = 0;
    proof {
        assert(e@.attrs.skip(0) =~= e@.attrs);
    }
    while i < e.attrs.len()
        invariant
            i <= e.attrs@.len(),
            e@.attrs.len() == e.attrs@.len(),
            pairs_lookup(e@.attrs, name@) == pairs_lookup(e@.attrs.skip(i as int), name@),
        decreases e.attrs.len() - i,
    {
        let pair = &e.attrs[i];
        proof {
            assert(e@.attrs[i as int] == (pair.0@, pair.1@));
            assert(e@.attrs.skip(i as int)[0] == e@.attrs[i as int]);
        }
        if crate::text::str_eq(pair.0.as_str(), name) {
            return Some(&pair.1);
        }
        proof {
            assert(e@.attrs.skip(i as int).drop_first() =~= e@.attrs.skip(i + 1));
        }
        i = i + 1;
    }
    proof {
        assert(e@.attrs.skip(e@.attrs.len() as int).len() == 0);
    }
    None
}

/// A single ASCII whitespace character, as used to separate class tokens.
pub open spec fn is_ascii_ws(c: char) -> bool {
    c == ' ' || c == '\t' || c == '\n' || c == '\r' || c == '\u{c}'
}

/// `t` stands in `cl` as a whole whitespace-separated token.
pub open spec fn class_has_token(cl: Seq<char>, t: Seq<char>) -> bool {
    exists|i: int|
        0 <= i && i + t.len() <= cl.len() && #[trigger] cl.subrange(i, i + t.len()) == t && (i == 0
            || is_ascii_ws(cl[i - 1])) && (i + t.len() == cl.len() || is_ascii_ws(
            cl[i + t.len()],
        ))
}

/// Whether `t` stands in `cl` as a whole whitespace-separated token.
pub(crate) fn class_has_token_exec(cl: &str, t: &str) -> (r: bool)
    requires
        t@.len() > 0,
    ensures
        r == class_has_token(cl@, t@),
{
    let vc = crate::text::chars_of(cl);
    let vt = crate::text::chars_of(t);
    if vt.len() > vc.len() {
        return false;
    }
    let mut i: usize = 0;
    let last = vc.len() - vt.len();
    while i <= last
        invariant
            vc@ == cl@,
            vt@ == t@,
            0 < vt@.len() <= vc@.len(),
            vc@.len() <= usize::MAX,
            last == vc@.len() - vt@.len(),
            last < usize::MAX,
            i <= last + 1,
            forall|k: int|
                0 <= k < i ==> !(#[trigger] cl@.subrange(k, k + t@.len()) == t@ && (k == 0
                    || is_ascii_ws(cl@[k - 1])) && (k + t@.len() == cl@.len() || is_ascii_ws(
                    cl@[k + t@.len()],
                ))),
        decreases last + 1 - i,
    {
        if crate::text::match_at(&vc, &vt, i) {
            let left_ok = i == 0 || is_ws_char(vc[i - 1]);
            let right_ok = i + vt.len() == vc.len() || is_ws_char(vc[i + vt.len()]);
            if left_ok && right_ok {
                return true;
            }
        }
        i = i + 1;
    }
    false
}

/// Whether `c` is an ASCII whitespace character.
fn is_ws_char(c: char) -> (r: bool)
    ensures
        r == is_ascii_ws(c),
{
    c == ' ' || c == '\t' || c == '\n' || c == '\r' || c == '\u{c}'
}

/// Mathematical view of a query over elements.
pub ghost enum MatcherView {
    /// An element whose `id` attribute has exactly this value.
    Id(Seq<char>),
    /// An `input` element whose `name` attribute has exactly this value.
    InputNamed(Seq<char>),
    /// An `input` element whose `name` attribute starts with this value.
    InputNamePrefix(Seq<char>),
    /// An element with this tag name.
    Tag(Seq<char>),
    /// A `span` element with the `shindanEffects` class whose `data-mode`
    /// attribute has exactly this value.
    SpanEffect(Seq<char>),
}

/// A query over elements, built once and passed to the find functions.
pub enum Matcher {
    Id(String),
    InputNamed(String),
    InputNamePrefix(String),
    Tag(String),
    SpanEffect(String),
}

impl View for Matcher {
    type V = MatcherView;

    open spec fn view(&self) -> MatcherView {
        match self {
            Matcher::Id(v) => MatcherView::Id(v@),
            Matcher::InputNamed(v) => MatcherView::InputNamed(v@),
            Matcher::InputNamePrefix(v) => MatcherView::InputNamePrefix(v@),
            Matcher::Tag(v) => MatcherView::Tag(v@),
            Matcher::SpanEffect(v) => MatcherView::SpanEffect(v@),
        }
    }
}

/// Whether the element answers the query.
pub open spec fn elem_matches(m: MatcherView, e: ElemView) -> bool {
    match m {
        MatcherView::Id(v) => elem_attr(e, "id"@) == Some(v),
        MatcherView::InputNamed(v) => e.tag == "input"@ && elem_attr(e, "name"@) == Some(v),
        MatcherView::InputNamePrefix(p) => e.tag == "input"@ && (elem_attr(e, "name"@) matches Some(
            n,
        ) && crate::text::has_prefix(n, p)),
        MatcherView::Tag(t) => e.tag == t,
        MatcherView::SpanEffect(mode) => e.tag == "span"@ && (elem_attr(e, "class"@) matches Some(
            cl,
        ) && class_has_token(cl, "shindanEffects"@)) && elem_attr(e, "data-mode"@) == Some(mode),
    }
}

/// Whether the element answers the query.
pub fn elem_matches_exec(m: &Matcher, e: &HtmlElement) -> (r: bool)
    ensures
        r == elem_matches(m@, e@),
{
    match m {
        Matcher::Id(v) => match get_attr(e, "id") {
            Some(a) => crate::text::str_eq(a.as_str(), v.as_str()),
            None => false,
        },
        Matcher::InputNamed(v) => crate::text::str_eq(e.tag.as_str(), "input") && (match get_attr(
            e,
            "name",
        ) {
            Some(a) => crate::text::str_eq(a.as_str(), v.as_str()),
            None => false,
        }),
        Matcher::InputNamePrefix(p) => crate::text::str_eq(e.tag.as_str(), "input") && (match
            get_attr(e, "name") {
            Some(a) => crate::text::starts_with_exec(a.as_str(), p.as_str()),
            None => false,
        }),
        Matcher::Tag(t) => crate::text::str_eq(e.tag.as_str(), t.as_str()),
        Matcher::SpanEffect(mode) => {
            proof {
                reveal_strlit("shindanEffects");
            }
            crate::text::str_eq(e.tag.as_str(), "span") && (match get_attr(e, "class") {
                Some(cl) => class_has_token_exec(cl.as_str(), "shindanEffects"),
                None => false,
            }) && (match get_attr(e, "data-mode") {
                Some(a) => crate::text::str_eq(a.as_str(), mode.as_str()),
                None => false,
            })
        },
    }
}

/// The first element, in document order, that answers the query: the node
/// itself if it matches, else the first match among its descendants.
pub open spec fn find_in_node(m: MatcherView, n: NodeView) -> Option<ElemView>
    decreases n,
{
    match n {
        NodeView::Elem(e) => if elem_matches(m, e) {
            Some(e)
        } else {
            find_in_nodes(m, e.children)
        },
        _ => None,
    }
}

/// The first element, in document order, among these nodes and their
/// descendants that answers the query.
pub open spec fn find_in_nodes(m: MatcherView, s: Seq<NodeView>) -> Option<ElemView>
    decreases s,
{
    if s.len() == 0 {
        None
    } else {
        match find_in_node(m, s[0]) {
            Some(e) => Some(e),
            None => find_in_nodes(m, s.drop_first()),
        }
    }
}

/// The first element under `n` (itself included), in document order, that
/// answers the query.
pub fn find_node<'a>(m: &Matcher, n: &'a HtmlNode) -> (r: Option<&'a HtmlElement>)
    ensures
        match r {
            Some(e) => find_in_node(m@, n@) == Some(e@),
            None => find_in_node(m@, n@) is None,
        },
    decreases n,
{
    match n {
        HtmlNode::Element(e) => {
            if elem_matches_exec(m, e) {
                Some(e)
            } else {
                find_in_children(m, &e.children)
            }
        },
        _ => None,
    }
}

/// The first element among these nodes and their descendants, in document
/// order, that answers the query.
pub fn find_in_children<'a>(m: &Matcher, v: &'a Vec<HtmlNode>) -> (r: Option<&'a HtmlElement>)
    ensures
        match r {
            Some(e) => find_in_nodes(m@, nodes_view(v@)) == Some(e@),
            None => find_in_nodes(m@, nodes_view(v@)) is None,
        },
    decreases v,
{
    let ghost w = nodes_view(v@);
    proof {
        lemma_nodes_view_len(v@);
        assert(w.skip(0) =~= w);
    }
    let mut i: usize = 0;
    while i < v.len()
        invariant
            w == nodes_view(v@),
            w.len() == v@.len(),
            i <= v@.len(),
            find_in_nodes(m@, w) == find_in_nodes(m@, w.skip(i as int)),
        decreases v.len() - i,
    {
        proof {
            lemma_nodes_view_index(v@, i as int);
            assert(w.skip(i as int)[0] == w[i as int]);
        }
        let found = find_node(m, &v[i]);
        match found {
            Some(e) => {
                return Some(e);
            },
            None => {
                proof {
                    assert(w.skip(i as int).drop_first() =~= w.skip(i + 1));
                }
                i = i + 1;
            },
        }
    }
    proof {
        assert(w.skip(w.len() as int).len() == 0);
    }
    None
}

/// The first element in the whole document (the root element included), in
/// document order, that answers the query.
pub fn find_in_doc<'a>(m: &Matcher, doc: &'a HtmlElement) -> (r: Option<&'a HtmlElement>)
    ensures
        match r {
            Some(e) => find_in_elem(m@, doc@) == Some(e@),
            None => find_in_elem(m@, doc@) is None,
        },
{
    if elem_matches_exec(m, doc) {
        Some(doc)
    } else {
        find_in_children(m, &doc.children)
    }
}

/// The first element of the document that answers the query: the document
/// element itself if it matches, else the first match among its descendants.
pub open spec fn find_in_elem(m: MatcherView, e: ElemView) -> Option<ElemView> {
    if elem_matches(m, e) {
        Some(e)
    } else {
        find_in_nodes(m, e.children)
    }
}

/// Every element under `n` (itself included), in document order, that
/// answers the query; nested matches are all reported.
pub open spec fn all_in_node(m: MatcherView, n: NodeView) -> Seq<ElemView>
    decreases n,
{
    match n {
        NodeView::Elem(e) => (if elem_matches(m, e) {
            seq![e]
        } else {
            Seq::empty()
        }) + all_in_nodes(m, e.children),
        _ => Seq::empty(),
    }
}

/// Every element among these nodes and their descendants, in document
/// order, that answers the query.
pub open spec fn all_in_nodes(m: MatcherView, s: Seq<NodeView>) -> Seq<ElemView>
    decreases s,
{
    if s.len() == 0 {
        Seq::empty()
    } else {
        all_in_node(m, s[0]) + all_in_nodes(m, s.drop_first())
    }
}

/// Every element of the document (the document element included), in
/// document order, that answers the query.
pub open spec fn all_in_elem(m: MatcherView, e: ElemView) -> Seq<ElemView> {
    (if elem_matches(m, e) {
        seq![e]
    } else {
        Seq::empty()
    }) + all_in_nodes(m, e.children)
}

/// The views of a collected sequence of element references.
pub open spec fn refs_view(s: Seq<&HtmlElement>) -> Seq<ElemView> {
    Seq::new(s.len(), |i: int| elem_view(*s[i]))
}

/// Collects into `out` every element under `n` (itself included), in
/// document order, that answers the query.
pub fn all_node<'a>(m: &Matcher, n: &'a HtmlNode, out: &mut Vec<&'a HtmlElement>)
    ensures
        refs_view(final(out)@) == refs_view(old(out)@) + all_in_node(m@, n@),
    decreases n,
{
    match n {
        HtmlNode::Element(e) => {
            let ghost pre = refs_view(out@);
            if elem_matches_exec(m, e) {
                out.push(e);
                proof {
                    assert(refs_view(out@) =~= pre + seq![elem_view(*e)]);
                }
            } else {
                proof {
                    assert(refs_view(out@) =~= pre + Seq::<ElemView>::empty());
                }
            }
            all_children(m, &e.children, out);
            proof {
                assert((pre + (if elem_matches(m@, e@) {
                    seq![e@]
                } else {
                    Seq::<ElemView>::empty()
                })) + all_in_nodes(m@, nodes_view(e.children@)) =~= pre + ((if elem_matches(
                    m@,
                    e@,
                ) {
                    seq![e@]
                } else {
                    Seq::<ElemView>::empty()
                }) + all_in_nodes(m@, nodes_view(e.children@))));
            }
        },
        _ => {
            proof {
                assert(refs_view(out@) =~= refs_view(out@) + Seq::<ElemView>::empty());
            }
        },
    }
}

/// Collects into `out` every element among these nodes and their
/// descendants, in document order, that answers the query.
pub fn all_children<'a>(m: &Matcher, v: &'a Vec<HtmlNode>, out: &mut Vec<&'a HtmlElement>)
    ensures
        refs_view(final(out)@) == refs_view(old(out)@) + all_in_nodes(m@, nodes_view(v@)),
    decreases v,
{
    let ghost w = nodes_view(v@);
    let ghost orig = refs_view(out@);
    proof {
        lemma_nodes_view_len(v@);
        assert(w.skip(0) =~= w);
        assert(orig + Seq::<ElemView>::empty() =~= orig);
    }
    let mut i: usize = 0;
    while i < v.len()
        invariant
            w == nodes_view(v@),
            w.len() == v@.len(),
            i <= v@.len(),
            orig == refs_view(old(out)@),
            refs_view(out@) + all_in_nodes(m@, w.skip(i as int)) == orig + all_in_nodes(m@, w),
        decreases v.len() - i,
    {
        let ghost pre = refs_view(out@);
        proof {
            lemma_nodes_view_index(v@, i as int);
            assert(w.skip(i as int)[0] == w[i as int]);
        }
        all_node(m, &v[i], out);
        proof {
            assert(w.skip(i as int).drop_first() =~= w.skip(i + 1));
            assert(all_in_nodes(m@, w.skip(i as int)) == all_in_node(m@, w[i as int])
                + all_in_nodes(m@, w.skip(i + 1)));
            assert((pre + all_in_node(m@, w[i as int])) + all_in_nodes(m@, w.skip(i + 1)) =~= pre
                + (all_in_node(m@, w[i as int]) + all_in_nodes(m@, w.skip(i + 1))));
        }
        i = i + 1;
    }
    proof {
        assert(w.skip(w.len() as int).len() == 0);
        assert(refs_view(out@) + Seq::<ElemView>::empty() =~= refs_view(out@));
    }
}

/// Every element of the document, in document order, that answers the query.
pub fn all_in_doc<'a>(m: &Matcher, doc: &'a HtmlElement) -> (r: Vec<&'a HtmlElement>)
    ensures
        refs_view(r@) == all_in_elem(m@, doc@),
{
    let mut out: Vec<&HtmlElement> = Vec::new();
    proof {
        assert(refs_view(out@) =~= Seq::<ElemView>::empty());
    }
    if elem_matches_exec(m, doc) {
        out.push(doc);
        proof {
            assert(refs_view(out@) =~= Seq::<ElemView>::empty() + seq![elem_view(*doc)]);
        }
    }
    let ghost pre = refs_view(out@);
    all_children(m, &doc.children, &mut out);
    proof {
        if elem_matches(m@, doc@) {
            assert(pre =~= Seq::<ElemView>::empty() + seq![doc@]);
            assert((Seq::<ElemView>::empty() + seq![doc@]) + all_in_nodes(
                m@,
                nodes_view(doc.children@),
            ) =~= seq![doc@] + all_in_nodes(m@, nodes_view(doc.children@)));
        } else {
            assert(pre =~= Seq::<ElemView>::empty());
            assert((Seq::<ElemView>::empty() + all_in_nodes(m@, nodes_view(doc.children@))) =~= (
            if elem_matches(m@, doc@) {
                seq![doc@]
            } else {
                Seq::<ElemView>::empty()
            }) + all_in_nodes(m@, nodes_view(doc.children@)));
        }
        assert(refs_view(out@) =~= all_in_elem(m@, doc@));
    }
    out
}

/// The document tree that parsing a given text yields. Parsing is done by an
/// outside HTML parser whose result is deterministic — a function of the
/// text alone — which is what lets it carry a name. Nothing is assumed of
/// the tree's shape on given texts: callers learn it only by parsing.
pub uninterp spec fn parsed_doc(text: Seq<char>) -> ElemView;

impl Default for HtmlElement {
    /// The empty element: no tag, no attributes, no children. It stands for
    /// the document root in a freshly converted tree.
    fn default() -> (r: HtmlElement)
        ensures
            r@ == (ElemView { tag: Seq::empty(), attrs: Seq::empty(), children: Seq::empty() }),
    {
        let r = HtmlElement { tag: String::new(), attrs: Vec::new(), children: Vec::new() };
        proof {
            assert(r.attrs.deep_view() =~= Seq::<(Seq<char>, Seq<char>)>::empty());
            assert(nodes_view(r.children@) =~= Seq::<NodeView>::empty());
        }
        r
    }
}

#[verifier::external_type_specification]
#[verifier::external_body]
pub struct ExHtml(Html);

#[verifier::external_type_specification]
#[verifier::external_body]
pub struct ExElement(scraper::node::Element);

/// The document model held inside a parsed outside document. It is what
/// the conversion below hands over, named so that parsing and conversion
/// can each carry their own contract.
pub uninterp spec fn doc_view(h: Html) -> ElemView;

/// The tag name and the attributes, in stored order, of one element of the
/// outside parser's tree.
pub uninterp spec fn elem_parts_of(el: scraper::node::Element) -> (Seq<char>, Seq<
    (Seq<char>, Seq<char>),
>);

/// Relies on `scraper::Html::parse_document`: parsing never fails and is
/// deterministic, a pure function of the input text alone, so the model of
/// the parsed document is named by that text.
pub assume_specification [ scraper::Html::parse_document ](document: &str) -> (r: scraper::Html)
    ensures
        doc_view(r) == parsed_doc(document@),
;

/// Relies on `scraper::node::Element::name` and `::attrs`: the body only
/// copies the element's tag name and its attribute pairs, in the order the
/// parser stores them, into a childless element of the document model.
#[verifier::external_body]
fn elem_shell(el: &scraper::node::Element) -> (r: HtmlElement)
    ensures
        r@ == (ElemView {
            tag: elem_parts_of(*el).0,
            attrs: elem_parts_of(*el).1,
            children: Seq::empty(),
        }),
{
    HtmlElement {
        tag: el.name().to_string(),
        attrs: el.attrs().map(|(k, v)| (k.to_string(), v.to_string())).collect(),
        children: vec![],
    }
}

/// Relies on `ego_tree`'s depth-first traversal: the body only converts the
/// parsed tree node for node into the library's document model — elements
/// keep their tag, attributes and children; text keeps its decoded
/// characters; every other node kind becomes `Other`.
#[verifier::external_body]
fn dom_of(html: &Html) -> (r: HtmlElement)
    ensures
        r@ == doc_view(*html),
{
    let mut st = vec![HtmlElement::default()];
    for edge in html.tree.root().traverse() {
        match edge {
            Edge::Open(n) => match n.value() {
                Node::Text(t) => st.last_mut().unwrap().children.push(HtmlNode::Text(t.text.to_string())),
                Node::Element(e) => st.push(elem_shell(e)),
                _ => st.last_mut().unwrap().children.push(HtmlNode::Other),
            },
            Edge::Close(n) => if n.value().is_element() {
                let e = st.pop().unwrap();
                st.last_mut().unwrap().children.push(HtmlNode::Element(e));
            },
        }
    }
    st.pop().unwrap()
}

/// A text parsed into the library's document model: the root element holds
/// the whole page.
pub(crate) fn parse_page(text: &str) -> (r: HtmlElement)
    ensures
        r@ == parsed_doc(text@),
{
    let html = Html::parse_document(text);
    dom_of(&html)
}

} // verus!
