//! The dual-strategy segment parser: a result document's content region
//! becomes an ordered sequence of typed segments, read first from a
//! structured JSON payload attribute and, when that yields nothing, from a
//! depth-first walk of the container's DOM subtree.

use vstd::prelude::*;
use vstd::string::StringExecFns;
use crate::dom::{
    ElemView, HtmlElement, HtmlNode, Matcher, MatcherView, NodeView, elem_attr, find_in_doc,
    find_in_elem, get_attr, nodes_view, parse_page, parsed_doc,
};
use crate::error::ShindanError;
use crate::models::{SegView, Segment, Segments, seg_views};
use crate::text::{concat_map, lemma_concat_map_push, replace_str, str_eq, str_replace};

verus! {

/// Mathematical view of one field value of a structured-payload block:
/// a JSON string, or a value of any other JSON kind.
pub ghost enum JsonFieldView {
    Str(Seq<char>),
    Other,
}

/// Mathematical view of one block of the structured payload: an object with
/// its entries in stored order, or a non-object array element.
pub ghost enum BlockView {
    Obj(Seq<(Seq<char>, JsonFieldView)>),
    NonObj,
}

/// One field value of a structured-payload block. Only string values take
/// part in segment extraction; every other JSON kind is kept opaque.
pub enum JsonField {
    Str(String),
    Other,
}

/// One block of the structured payload: a JSON object given as ordered
/// key/value entries, or a non-object array element.
pub enum Block {
    Obj(Vec<(String, JsonField)>),
    NonObj,
}

impl View for JsonField {
    type V = JsonFieldView;

    open spec fn view(&self) -> JsonFieldView {
        match self {
            JsonField::Str(s) => JsonFieldView::Str(s@),
            JsonField::Other => JsonFieldView::Other,
        }
    }
}

impl DeepView for JsonField {
    type V = JsonFieldView;

    open spec fn deep_view(&self) -> JsonFieldView {
        self.view()
    }
}

impl View for Block {
    type V = BlockView;

    open spec fn view(&self) -> BlockView {
        match self {
            Block::Obj(fields) => BlockView::Obj(fields.deep_view()),
            Block::NonObj => BlockView::NonObj,
        }
    }
}

impl DeepView for Block {
    type V = BlockView;

    open spec fn deep_view(&self) -> BlockView {
        self.view()
    }
}

/// Whether the object carries a field named `k` at all.
pub open spec fn obj_has(fields: Seq<(Seq<char>, JsonFieldView)>, k: Seq<char>) -> bool
    decreases fields.len(),
{
    if fields.len() == 0 {
        false
    } else if fields[0].0 == k {
        true
    } else {
        obj_has(fields.drop_first(), k)
    }
}

/// The string value of the field named `k`: `None` when the field is absent
/// or holds a value of another JSON kind.
pub open spec fn obj_str(fields: Seq<(Seq<char>, JsonFieldView)>, k: Seq<char>) -> Option<
    Seq<char>,
>
    decreases fields.len(),
{
    if fields.len() == 0 {
        None
    } else if fields[0].0 == k {
        match fields[0].1 {
            JsonFieldView::Str(s) => Some(s),
            JsonFieldView::Other => None,
        }
    } else {
        obj_str(fields.drop_first(), k)
    }
}

/// Whether the object carries a field named `k`.
fn obj_has_exec(fields: &Vec<(String, JsonField)>, k: &str) -> (r: bool)
    ensures
        r == obj_has(fields.deep_view(), k@),
{
    let ghost fs = fields.deep_view();
    proof {
        assert(fs.skip(0) =~= fs);
    }
    let mut i: usize = 0;
    while i < fields.len()
        invariant
            fs == fields.deep_view(),
            i <= fields@.len(),
            fs.len() == fields@.len(),
            obj_has(fs, k@) == obj_has(fs.skip(i as int), k@),
        decreases fields.len() - i,
    {
        let pair = &fields[i];
        proof {
            assert(fs[i as int] == (pair.0@, pair.1.deep_view()));
            assert(fs.skip(i as int)[0] == fs[i as int]);
        }
        if str_eq(pair.0.as_str(), k) {
            return true;
        }
        proof {
            assert(fs.skip(i as int).drop_first() =~= fs.skip(i + 1));
        }
        i = i + 1;
    }
    proof {
        assert(fs.skip(fs.len() as int).len() == 0);
    }
    false
}

/// The string value of the field named `k`, if the object has one.
fn obj_str_exec<'a>(fields: &'a Vec<(String, JsonField)>, k: &str) -> (r: Option<&'a String>)
    ensures
        match r {
            Some(v) => obj_str(fields.deep_view(), k@) == Some(v@),
            None => obj_str(fields.deep_view(), k@) is None,
        },
{
    let ghost fs = fields.deep_view();
    proof {
        assert(fs.skip(0) =~= fs);
    }
    let mut i: usize = 0;
    while i < fields.len()
        invariant
            fs == fields.deep_view(),
            i <= fields@.len(),
            fs.len() == fields@.len(),
            obj_str(fs, k@) == obj_str(fs.skip(i as int), k@),
        decreases fields.len() - i,
    {
        let pair = &fields[i];
        proof {
            assert(fs[i as int] == (pair.0@, pair.1.deep_view()));
            assert(fs.skip(i as int)[0] == fs[i as int]);
        }
        if str_eq(pair.0.as_str(), k) {
            match &pair.1 {
                JsonField::Str(s) => {
                    return Some(s);
                },
                JsonField::Other => {
                    return None;
                },
            }
        }
        proof {
            assert(fs.skip(i as int).drop_first() =~= fs.skip(i + 1));
        }
        i = i + 1;
    }
    proof {
        assert(fs.skip(fs.len() as int).len() == 0);
    }
    None
}

/// The image URL of an image block: the string value of the first present
/// field among `source`, `src`, `url` and `file`, in that order of
/// precedence; `None` when none is present, or when the first present one
/// holds a value of another JSON kind.
pub open spec fn img_src(fields: Seq<(Seq<char>, JsonFieldView)>) -> Option<Seq<char>> {
    if obj_has(fields, "source"@) {
        obj_str(fields, "source"@)
    } else if obj_has(fields, "src"@) {
        obj_str(fields, "src"@)
    } else if obj_has(fields, "url"@) {
        obj_str(fields, "url"@)
    } else if obj_has(fields, "file"@) {
        obj_str(fields, "file"@)
    } else {
        None
    }
}

/// The image URL of an image block, if one can be read.
fn img_src_exec<'a>(fields: &'a Vec<(String, JsonField)>) -> (r: Option<&'a String>)
    ensures
        match r {
            Some(v) => img_src(fields.deep_view()) == Some(v@),
            None => img_src(fields.deep_view()) is None,
        },
{
    if obj_has_exec(fields, "source") {
        obj_str_exec(fields, "source")
    } else if obj_has_exec(fields, "src") {
        obj_str_exec(fields, "src")
    } else if obj_has_exec(fields, "url") {
        obj_str_exec(fields, "url")
    } else if obj_has_exec(fields, "file") {
        obj_str_exec(fields, "file")
    } else {
        None
    }
}

/// The segments one block contributes: a `text` block its `content` string,
/// a `user_input` block its `value` string taken as literal text, an `image`
/// block its URL; a block of any other type, a block missing its payload
/// field, and a non-object block contribute nothing.
pub open spec fn block_segs(b: BlockView) -> Seq<SegView> {
    match b {
        BlockView::Obj(fields) => {
            let t = obj_str(fields, "type"@);
            if t == Some("text"@) {
                match obj_str(fields, "content"@) {
                    Some(c) => seq![SegView::Text(c)],
                    None => Seq::empty(),
                }
            } else if t == Some("user_input"@) {
                match obj_str(fields, "value"@) {
                    Some(v) => seq![SegView::Text(v)],
                    None => Seq::empty(),
                }
            } else if t == Some("image"@) {
                match img_src(fields) {
                    Some(u) => seq![SegView::Image(u)],
                    None => Seq::empty(),
                }
            } else {
                Seq::empty()
            }
        },
        BlockView::NonObj => Seq::empty(),
    }
}

/// The segments of a whole structured payload, in array order.
pub open spec fn blocks_segs(bs: Seq<BlockView>) -> Seq<SegView> {
    concat_map(bs, |b: BlockView| block_segs(b))
}

/// The segments read from a structured payload.
fn blocks_to_segments(blocks: &Vec<Block>) -> (r: Vec<Segment>)
    ensures
        seg_views(r@) == blocks_segs(blocks.deep_view()),
{
    let ghost bs = blocks.deep_view();
    let mut out: Vec<Segment> = Vec::new();
    proof {
        assert(bs.take(0) =~= Seq::<BlockView>::empty());
        assert(seg_views(out@) =~= Seq::<SegView>::empty());
    }
    let mut i: usize = 0;
    while i < blocks.len()
        invariant
            bs == blocks.deep_view(),
            i <= blocks@.len(),
            bs.len() == blocks@.len(),
            seg_views(out@) == blocks_segs(bs.take(i as int)),
        decreases blocks.len() - i,
    {
        let ghost pre = seg_views(out@);
        proof {
            assert(bs[i as int] == blocks@[i as int].deep_view());
        }
        match &blocks[i] {
            Block::Obj(fields) => {
                match obj_str_exec(fields, "type") {
                    Some(t) => {
                        if str_eq(t.as_str(), "text") {
                            match obj_str_exec(fields, "content") {
                                Some(c) => {
                                    out.push(Segment::Text { value: c.clone() });
                                },
                                None => {},
                            }
                        } else if str_eq(t.as_str(), "user_input") {
                            match obj_str_exec(fields, "value") {
                                Some(v) => {
                                    out.push(Segment::Text { value: v.clone() });
                                },
                                None => {},
                            }
                        } else if str_eq(t.as_str(), "image") {
                            match img_src_exec(fields) {
                                Some(u) => {
                                    out.push(Segment::Image { url: u.clone() });
                                },
                                None => {},
                            }
                        }
                    },
                    None => {},
                }
            },
            Block::NonObj => {},
        }
        proof {
            assert(seg_views(out@) =~= pre + block_segs(bs[i as int]));
            assert(bs.take(i + 1) =~= bs.take(i as int).push(bs[i as int]));
            lemma_concat_map_push(bs.take(i as int), |b: BlockView| block_segs(b), bs[i as int]);
        }
        i = i + 1;
    }
    proof {
        assert(bs.take(bs.len() as int) =~= bs);
    }
    out
}

/// The image URL a walked `img` element yields: its `data-src` attribute
/// when present, else its `src` attribute.
pub open spec fn img_attr(e: ElemView) -> Option<Seq<char>> {
    if elem_attr(e, "data-src"@) is Some {
        elem_attr(e, "data-src"@)
    } else {
        elem_attr(e, "src"@)
    }
}

/// The segments one node of the DOM walk contributes: a text node its text
/// with every `&nbsp;` marker replaced by a space, when non-empty; a line
/// break a newline text segment; an image its URL when one can be read; any
/// other element only what its descendants contribute.
pub open spec fn walk_node(n: NodeView) -> Seq<SegView>
    decreases n,
{
    match n {
        NodeView::Text(t) => {
            let r = str_replace(t, "&nbsp;"@, " "@);
            if r.len() > 0 {
                seq![SegView::Text(r)]
            } else {
                Seq::empty()
            }
        },
        NodeView::Elem(e) => {
            if e.tag == "br"@ {
                seq![SegView::Text("\n"@)]
            } else if e.tag == "img"@ {
                match img_attr(e) {
                    Some(u) => seq![SegView::Image(u)],
                    None => Seq::empty(),
                }
            } else {
                walk_nodes(e.children)
            }
        },
        NodeView::Other => Seq::empty(),
    }
}

/// The segments a list of sibling nodes contributes, left to right.
pub open spec fn walk_nodes(s: Seq<NodeView>) -> Seq<SegView>
    decreases s,
{
    if s.len() == 0 {
        Seq::empty()
    } else {
        walk_node(s[0]) + walk_nodes(s.drop_first())
    }
}

/// Collects into `out` the segments this node contributes to the DOM walk.
fn walk_node_exec(n: &HtmlNode, out: &mut Vec<Segment>)
    ensures
        seg_views(final(out)@) == seg_views(old(out)@) + walk_node(n@),
    decreases n,
{
    let ghost pre = seg_views(out@);
    match n {
        HtmlNode::Text(t) => {
            let replaced = replace_str(t.as_str(), "&nbsp;", " ");
            if !replaced.as_str().is_empty() {
                out.push(Segment::Text { value: replaced });
                proof {
                    assert(seg_views(out@) =~= pre + walk_node(n@));
                }
            } else {
                proof {
                    assert(seg_views(out@) =~= pre + Seq::<SegView>::empty());
                }
            }
        },
        HtmlNode::Element(e) => {
            if str_eq(e.tag.as_str(), "br") {
                out.push(Segment::Text { value: String::from_str("\n") });
                proof {
                    assert(seg_views(out@) =~= pre + walk_node(n@));
                }
            } else if str_eq(e.tag.as_str(), "img") {
                let src = match get_attr(e, "data-src") {
                    Some(u) => Some(u),
                    None => get_attr(e, "src"),
                };
                match src {
                    Some(u) => {
                        out.push(Segment::Image { url: u.clone() });
                        proof {
                            assert(seg_views(out@) =~= pre + walk_node(n@));
                        }
                    },
                    None => {
                        proof {
                            assert(seg_views(out@) =~= pre + Seq::<SegView>::empty());
                        }
                    },
                }
            } else {
                walk_children_exec(&e.children, out);
            }
        },
        HtmlNode::Other => {
            proof {
                assert(seg_views(out@) =~= pre + Seq::<SegView>::empty());
            }
        },
    }
}

/// Collects into `out` the segments these sibling nodes contribute, left to
/// right.
fn walk_children_exec(v: &Vec<HtmlNode>, out: &mut Vec<Segment>)
    ensures
        seg_views(final(out)@) == seg_views(old(out)@) + walk_nodes(nodes_view(v@)),
    decreases v,
{
    let ghost w = nodes_view(v@);
    let ghost orig = seg_views(out@);
    proof {
        crate::dom::lemma_nodes_view_len(v@);
        assert(w.skip(0) =~= w);
        assert(orig + Seq::<SegView>::empty() =~= orig);
    }
    let mut i: usize = 0;
    while i < v.len()
        invariant
            w == nodes_view(v@),
            w.len() == v@.len(),
            i <= v@.len(),
            orig == seg_views(old(out)@),
            seg_views(out@) + walk_nodes(w.skip(i as int)) == orig + walk_nodes(w),
        decreases v.len() - i,
    {
        let ghost pre = seg_views(out@);
        proof {
            crate::dom::lemma_nodes_view_index(v@, i as int);
            assert(w.skip(i as int)[0] == w[i as int]);
        }
        walk_node_exec(&v[i], out);
        proof {
            assert(w.skip(i as int).drop_first() =~= w.skip(i + 1));
            assert(walk_nodes(w.skip(i as int)) == walk_node(w[i as int]) + walk_nodes(
                w.skip(i + 1),
            ));
            assert((pre + walk_node(w[i as int])) + walk_nodes(w.skip(i + 1)) =~= pre + (walk_node(
                w[i as int],
            ) + walk_nodes(w.skip(i + 1))));
        }
        i = i + 1;
    }
    proof {
        assert(w.skip(w.len() as int).len() == 0);
        assert(seg_views(out@) + Seq::<SegView>::empty() =~= seg_views(out@));
    }
}

/// The structured payload that parsing a given attribute text yields: the
/// blocks of the JSON array, or `None` when the text is not a JSON array.
/// Parsing is done by an outside JSON parser; the result is a function of
/// the text alone, so it is named here and axiomatised nowhere else.
pub uninterp spec fn parsed_blocks(text: Seq<char>) -> Option<Seq<BlockView>>;

/// Relies on `serde_json::from_str`: parsing is deterministic, a pure
/// function of the input text, and yields `Ok` exactly on valid JSON. The
/// body converts a parsed top-level array element for element: an object
/// keeps its entries in the parser's stored (key-sorted) order with string
/// values kept and others marked opaque; a non-object element is marked;
/// a text that is not a JSON array gives `None`.
#[verifier::external_body]
pub(crate) fn parse_blocks(text: &str) -> (r: Option<Vec<Block>>)
    ensures
        r.deep_view() == parsed_blocks(text@),
{
    let v: serde_json::Value = match serde_json::from_str(text) {
        Ok(v) => v,
        Err(_) => return None,
    };
    match v {
        serde_json::Value::Array(items) => Some(items.iter().map(|b| match b {
            serde_json::Value::Object(m) => Block::Obj(m.iter().map(|(k, f)| (k.clone(), match f {
                serde_json::Value::String(s) => JsonField::Str(s.clone()),
                _ => JsonField::Other,
            })).collect()),
            _ => Block::NonObj,
        }).collect()),
        _ => None,
    }
}

/// The segments of a result container: the structured payload's segments
/// when its attribute is present, parses as a JSON array and yields at
/// least one segment; in every other case the DOM walk's segments.
pub open spec fn container_segs(container: ElemView) -> Seq<SegView> {
    match elem_attr(container, "data-blocks"@) {
        Some(json) => match parsed_blocks(json) {
            Some(bs) => {
                let a = blocks_segs(bs);
                if a.len() > 0 {
                    a
                } else {
                    walk_nodes(container.children)
                }
            },
            None => walk_nodes(container.children),
        },
        None => walk_nodes(container.children),
    }
}

/// The segments of a whole result document: those of the unique element
/// whose id is `shindanResult`, or `None` when that container is absent.
pub open spec fn segments_of(doc: ElemView) -> Option<Seq<SegView>> {
    match find_in_elem(MatcherView::Id("shindanResult"@), doc) {
        Some(c) => Some(container_segs(c)),
        None => None,
    }
}

/// The segment sequence of a parsed result document.
///
/// Succeeds exactly when the result container is present; its absence is
/// `ElementNotFound("result")`. Within the container, malformed blocks and
/// unreadable images are skipped, never an error.
pub fn parse_segments_doc(doc: &HtmlElement) -> (r: Result<Segments, ShindanError>)
    ensures
        match r {
            Ok(segs) => segments_of(doc@) == Some(segs@),
            Err(e) => segments_of(doc@) is None && (e matches ShindanError::ElementNotFound(w)
                && w@ == "result"@),
        },
{
    let m = Matcher::Id(String::from_str("shindanResult"));
    let container = match find_in_doc(&m, doc) {
        Some(c) => c,
        None => {
            return Err(ShindanError::ElementNotFound(String::from_str("result")));
        },
    };
    match get_attr(container, "data-blocks") {
        Some(json) => match parse_blocks(json.as_str()) {
            Some(blocks) => {
                let segs = blocks_to_segments(&blocks);
                if segs.len() > 0 {
                    Ok(Segments(segs))
                } else {
                    Ok(dom_walk_segments(container))
                }
            },
            None => Ok(dom_walk_segments(container)),
        },
        None => Ok(dom_walk_segments(container)),
    }
}

/// The segments of the DOM-walk strategy over a container's subtree.
fn dom_walk_segments(container: &HtmlElement) -> (r: Segments)
    ensures
        r@ == walk_nodes(container@.children),
{
    let mut out: Vec<Segment> = Vec::new();
    proof {
        assert(seg_views(out@) =~= Seq::<SegView>::empty());
    }
    walk_children_exec(&container.children, &mut out);
    proof {
        assert(Seq::<SegView>::empty() + walk_nodes(nodes_view(container.children@)) =~= walk_nodes(
            nodes_view(container.children@),
        ));
    }
    Segments(out)
}

/// The reading-order text one walked node stands for: its nbsp-replaced
/// text, a newline for a line break, an image's URL, and for any other
/// element the text of its descendants.
pub open spec fn linearize_node(n: NodeView) -> Seq<char>
    decreases n,
{
    match n {
        NodeView::Text(t) => str_replace(t, "&nbsp;"@, " "@),
        NodeView::Elem(e) => {
            if e.tag == "br"@ {
                "\n"@
            } else if e.tag == "img"@ {
                match img_attr(e) {
                    Some(u) => u,
                    None => Seq::empty(),
                }
            } else {
                linearize_nodes(e.children)
            }
        },
        NodeView::Other => Seq::empty(),
    }
}

/// The reading-order text of a list of sibling nodes, left to right.
pub open spec fn linearize_nodes(s: Seq<NodeView>) -> Seq<char>
    decreases s,
{
    if s.len() == 0 {
        Seq::empty()
    } else {
        linearize_node(s[0]) + linearize_nodes(s.drop_first())
    }
}

/// The reading-order text one block of the structured payload stands for.
pub open spec fn block_text(b: BlockView) -> Seq<char> {
    match b {
        BlockView::Obj(fields) => {
            let t = obj_str(fields, "type"@);
            if t == Some("text"@) {
                match obj_str(fields, "content"@) {
                    Some(c) => c,
                    None => Seq::empty(),
                }
            } else if t == Some("user_input"@) {
                match obj_str(fields, "value"@) {
                    Some(v) => v,
                    None => Seq::empty(),
                }
            } else if t == Some("image"@) {
                match img_src(fields) {
                    Some(u) => u,
                    None => Seq::empty(),
                }
            } else {
                Seq::empty()
            }
        },
        BlockView::NonObj => Seq::empty(),
    }
}

/// The reading-order text of a whole structured payload, in array order.
pub open spec fn blocks_text(bs: Seq<BlockView>) -> Seq<char> {
    concat_map(bs, |b: BlockView| block_text(b))
}

/// Order preservation, one block: flattening the segments a block emits
/// reproduces exactly the reading-order text it stands for.
pub proof fn lemma_block_order_preserving(b: BlockView)
    ensures
        crate::models::flat_text(block_segs(b)) == block_text(b),
{
    match b {
        BlockView::Obj(fields) => {
            let t = obj_str(fields, "type"@);
            if t == Some("text"@) {
                match obj_str(fields, "content"@) {
                    Some(c) => {
                        crate::models::lemma_flat_text_singleton(SegView::Text(c));
                    },
                    None => {},
                }
            } else if t == Some("user_input"@) {
                match obj_str(fields, "value"@) {
                    Some(v) => {
                        crate::models::lemma_flat_text_singleton(SegView::Text(v));
                    },
                    None => {},
                }
            } else if t == Some("image"@) {
                match img_src(fields) {
                    Some(u) => {
                        crate::models::lemma_flat_text_singleton(SegView::Image(u));
                    },
                    None => {},
                }
            }
        },
        BlockView::NonObj => {},
    }
}

/// Order preservation for the structured-payload strategy: flattening the
/// emitted segment sequence, with each image replaced by its URL, in
/// emitted order, reproduces exactly the payload's reading-order text.
pub proof fn lemma_blocks_order_preserving(bs: Seq<BlockView>)
    ensures
        crate::models::flat_text(blocks_segs(bs)) == blocks_text(bs),
    decreases bs.len(),
{
    if bs.len() == 0 {
    } else {
        lemma_block_order_preserving(bs[0]);
        lemma_blocks_order_preserving(bs.drop_first());
        crate::models::lemma_flat_text_concat(
            block_segs(bs[0]),
            blocks_segs(bs.drop_first()),
        );
        assert(blocks_segs(bs) == block_segs(bs[0]) + blocks_segs(bs.drop_first()));
        assert(blocks_text(bs) == block_text(bs[0]) + blocks_text(bs.drop_first()));
    }
}

/// Order preservation, one walked node: flattening the segments it emits
/// reproduces exactly the reading-order text it stands for.
pub proof fn lemma_walk_order_preserving_node(n: NodeView)
    ensures
        crate::models::flat_text(walk_node(n)) == linearize_node(n),
    decreases n,
{
    match n {
        NodeView::Text(t) => {
            let r = str_replace(t, "&nbsp;"@, " "@);
            if r.len() > 0 {
                crate::models::lemma_flat_text_singleton(SegView::Text(r));
            } else {
                assert(r =~= Seq::<char>::empty());
            }
        },
        NodeView::Elem(e) => {
            if e.tag == "br"@ {
                crate::models::lemma_flat_text_singleton(SegView::Text("\n"@));
            } else if e.tag == "img"@ {
                match img_attr(e) {
                    Some(u) => {
                        crate::models::lemma_flat_text_singleton(SegView::Image(u));
                    },
                    None => {},
                }
            } else {
                lemma_walk_order_preserving(e.children);
            }
        },
        NodeView::Other => {},
    }
}

/// Order preservation for the DOM-walk strategy: flattening the emitted
/// segment sequence, with each image replaced by its URL, in emitted order,
/// reproduces exactly the linearized reading-order text of the subtree.
pub proof fn lemma_walk_order_preserving(s: Seq<NodeView>)
    ensures
        crate::models::flat_text(walk_nodes(s)) == linearize_nodes(s),
    decreases s,
{
    if s.len() == 0 {
    } else {
        lemma_walk_order_preserving_node(s[0]);
        lemma_walk_order_preserving(s.drop_first());
        crate::models::lemma_flat_text_concat(walk_node(s[0]), walk_nodes(s.drop_first()));
    }
}

/// The reading-order text of the source that the chosen strategy reads:
/// the structured payload's text when that strategy is used, else the
/// linearized text of the container's subtree.
pub open spec fn container_text(container: ElemView) -> Seq<char> {
    match elem_attr(container, "data-blocks"@) {
        Some(json) => match parsed_blocks(json) {
            Some(bs) => {
                if blocks_segs(bs).len() > 0 {
                    blocks_text(bs)
                } else {
                    linearize_nodes(container.children)
                }
            },
            None => linearize_nodes(container.children),
        },
        None => linearize_nodes(container.children),
    }
}

/// Order preservation: for any result container, concatenating the emitted
/// segments' text, with each image replaced by its URL, in emitted order,
/// equals the linearized reading-order text of the source the strategy in
/// use read — whichever strategy that was.
pub proof fn lemma_order_preservation(container: ElemView)
    ensures
        crate::models::flat_text(container_segs(container)) == container_text(container),
{
    match elem_attr(container, "data-blocks"@) {
        Some(json) => match parsed_blocks(json) {
            Some(bs) => {
                if blocks_segs(bs).len() > 0 {
                    lemma_blocks_order_preserving(bs);
                } else {
                    lemma_walk_order_preserving(container.children);
                }
            },
            None => {
                lemma_walk_order_preserving(container.children);
            },
        },
        None => {
            lemma_walk_order_preserving(container.children);
        },
    }
}

/// Strategy equivalence: when a structured payload and a DOM subtree are
/// two encodings of the same content — they linearize to the same
/// reading-order text — the two strategies, run in isolation, emit segment
/// sequences that flatten to that same text.
pub proof fn lemma_strategy_equivalence(bs: Seq<BlockView>, children: Seq<NodeView>)
    requires
        blocks_text(bs) == linearize_nodes(children),
    ensures
        crate::models::flat_text(blocks_segs(bs)) == crate::models::flat_text(
            walk_nodes(children),
        ),
{
    lemma_blocks_order_preserving(bs);
    lemma_walk_order_preserving(children);
}

/// Idempotence: parsing is a pure function of the response text, so equal
/// texts always yield identical segment sequences.
pub proof fn lemma_parse_deterministic(t1: Seq<char>, t2: Seq<char>)
    requires
        t1 == t2,
    ensures
        segments_of(parsed_doc(t1)) == segments_of(parsed_doc(t2)),
{
}

/// Fallback correctness: with the structured-payload attribute absent, not
/// parseable as a JSON array, or yielding no segments, the container's
/// segments are exactly those of the DOM walk over its subtree.
pub proof fn lemma_fallback_to_dom_walk(container: ElemView)
    requires
        ({
            ||| elem_attr(container, "data-blocks"@) is None
            ||| (elem_attr(container, "data-blocks"@) matches Some(j) && parsed_blocks(j) is None)
            ||| (elem_attr(container, "data-blocks"@) matches Some(j) && parsed_blocks(j)
                matches Some(bs) && blocks_segs(bs).len() == 0)
        }),
    ensures
        container_segs(container) == walk_nodes(container.children),
{
}

/// The segment sequence of a result page given as response text.
pub fn parse_segments(response_text: &str) -> (r: Result<Segments, ShindanError>)
    ensures
        match r {
            Ok(segs) => segments_of(parsed_doc(response_text@)) == Some(segs@),
            Err(e) => segments_of(parsed_doc(response_text@)) is None && (e
                matches ShindanError::ElementNotFound(w) && w@ == "result"@),
        },
{
    let doc = parse_page(response_text);
    parse_segments_doc(&doc)
}

} // verus!
