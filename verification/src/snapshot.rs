//! The snapshot reconstructor: serialises the result-and-title container,
//! de-animates the two known effect wrappers, and substitutes the markup,
//! inlined assets and any page-specific chart script into a fixed template,
//! yielding a self-contained HTML document.

use vstd::prelude::*;
use vstd::string::StringExecFns;
use crate::dom::{
    ElemView, HtmlElement, HtmlNode, Matcher, MatcherView, NodeView, all_in_doc, all_in_elem,
    elem_matches, elem_matches_exec, find_in_doc, find_in_elem, nodes_view, parse_page,
    parsed_doc, refs_view,
};
use crate::error::ShindanError;
use crate::text::{
    chars_of, concat_map, lemma_concat_map_concat, lemma_concat_map_push,
    lemma_concat_map_singleton, push_char, replace_str, str_contains, str_contains_exec, str_eq,
    str_replace,
};

verus! {

/// What one character of a text node serialises to: the four characters
/// with a reserved meaning become entities, every other character stands
/// for itself.
pub open spec fn esc_text_char(c: char) -> Seq<char> {
    if c == '&' {
        "&amp;"@
    } else if c == '<' {
        "&lt;"@
    } else if c == '>' {
        "&gt;"@
    } else if c == '\u{a0}' {
        "&nbsp;"@
    } else {
        seq![c]
    }
}

/// A text run serialised: each character escaped as needed.
pub open spec fn esc_text(t: Seq<char>) -> Seq<char> {
    concat_map(t, |c: char| esc_text_char(c))
}

/// What one character of an attribute value serialises to.
pub open spec fn esc_attr_char(c: char) -> Seq<char> {
    if c == '&' {
        "&amp;"@
    } else if c == '\u{a0}' {
        "&nbsp;"@
    } else if c == '"' {
        "&quot;"@
    } else {
        seq![c]
    }
}

/// An attribute value serialised: each character escaped as needed.
pub open spec fn esc_attr(t: Seq<char>) -> Seq<char> {
    concat_map(t, |c: char| esc_attr_char(c))
}

/// A text run serialised.
fn esc_text_exec(t: &str) -> (r: String)
    ensures
        r@ == esc_text(t@),
{
    let v = chars_of(t);
    let mut out = String::new();
    proof {
        assert(v@.take(0) =~= Seq::<char>::empty());
    }
    let mut i: usize = 0;
    while i < v.len()
        invariant
            v@ == t@,
            i <= v@.len(),
            out@ == concat_map(v@.take(i as int), |c: char| esc_text_char(c)),
        decreases v.len() - i,
    {
        let ghost pre = out@;
        let c = v[i];
        if c == '&' {
            out.append("&amp;");
        } else if c == '<' {
            out.append("&lt;");
        } else if c == '>' {
            out.append("&gt;");
        } else if c == '\u{a0}' {
            out.append("&nbsp;");
        } else {
            push_char(&mut out, c);
            proof {
                assert(pre.push(c) =~= pre + seq![c]);
            }
        }
        proof {
            assert(out@ == pre + esc_text_char(v@[i as int]));
            assert(v@.take(i + 1) =~= v@.take(i as int).push(v@[i as int]));
            lemma_concat_map_push(v@.take(i as int), |c: char| esc_text_char(c), v@[i as int]);
        }
        i = i + 1;
    }
    proof {
        assert(v@.take(v@.len() as int) =~= v@);
    }
    out
}

/// An attribute value serialised.
fn esc_attr_exec(t: &str) -> (r: String)
    ensures
        r@ == esc_attr(t@),
{
    let v = chars_of(t);
    let mut out = String::new();
    proof {
        assert(v@.take(0) =~= Seq::<char>::empty());
    }
    let mut i: usize = 0;
    while i < v.len()
        invariant
            v@ == t@,
            i <= v@.len(),
            out@ == concat_map(v@.take(i as int), |c: char| esc_attr_char(c)),
        decreases v.len() - i,
    {
        let ghost pre = out@;
        let c = v[i];
        if c == '&' {
            out.append("&amp;");
        } else if c == '\u{a0}' {
            out.append("&nbsp;");
        } else if c == '"' {
            out.append("&quot;");
        } else {
            push_char(&mut out, c);
            proof {
                assert(pre.push(c) =~= pre + seq![c]);
            }
        }
        proof {
            assert(out@ == pre + esc_attr_char(v@[i as int]));
            assert(v@.take(i + 1) =~= v@.take(i as int).push(v@[i as int]));
            lemma_concat_map_push(v@.take(i as int), |c: char| esc_attr_char(c), v@[i as int]);
        }
        i = i + 1;
    }
    proof {
        assert(v@.take(v@.len() as int) =~= v@);
    }
    out
}

/// The void elements of HTML: serialised as a lone start tag, with no
/// closing tag and no serialised children.
pub open spec fn is_void_tag(tag: Seq<char>) -> bool {
    tag == "area"@ || tag == "base"@ || tag == "basefont"@ || tag == "bgsound"@ || tag == "br"@
        || tag == "col"@ || tag == "embed"@ || tag == "frame"@ || tag == "hr"@ || tag == "img"@
        || tag == "input"@ || tag == "keygen"@ || tag == "link"@ || tag == "meta"@ || tag
        == "param"@ || tag == "source"@ || tag == "track"@ || tag == "wbr"@
}

/// Whether the tag names a void element.
fn is_void_exec(tag: &str) -> (r: bool)
    ensures
        r == is_void_tag(tag@),
{
    str_eq(tag, "area") || str_eq(tag, "base") || str_eq(tag, "basefont") || str_eq(
        tag,
        "bgsound",
    ) || str_eq(tag, "br") || str_eq(tag, "col") || str_eq(tag, "embed") || str_eq(tag, "frame")
        || str_eq(tag, "hr") || str_eq(tag, "img") || str_eq(tag, "input") || str_eq(
        tag,
        "keygen",
    ) || str_eq(tag, "link") || str_eq(tag, "meta") || str_eq(tag, "param") || str_eq(
        tag,
        "source",
    ) || str_eq(tag, "track") || str_eq(tag, "wbr")
}

/// One attribute serialised: a space, the name, `="`, the escaped value,
/// and a closing quote.
pub open spec fn ser_attrs(attrs: Seq<(Seq<char>, Seq<char>)>) -> Seq<char> {
    concat_map(
        attrs,
        |p: (Seq<char>, Seq<char>)| " "@ + p.0 + "=\""@ + esc_attr(p.1) + "\""@,
    )
}

/// The serialised markup of one node.
pub open spec fn ser_node(n: NodeView) -> Seq<char>
    decreases n,
{
    match n {
        NodeView::Text(t) => esc_text(t),
        NodeView::Elem(e) => ser_elem(e),
        NodeView::Other => Seq::empty(),
    }
}

/// The serialised markup of an element: start tag with attributes, then —
/// except for void elements — the children and a closing tag.
pub open spec fn ser_elem(e: ElemView) -> Seq<char>
    decreases e,
{
    "<"@ + e.tag + ser_attrs(e.attrs) + ">"@ + (if is_void_tag(e.tag) {
        Seq::<char>::empty()
    } else {
        ser_nodes(e.children) + "</"@ + e.tag + ">"@
    })
}

/// The serialised markup of a list of sibling nodes, left to right.
pub open spec fn ser_nodes(s: Seq<NodeView>) -> Seq<char>
    decreases s,
{
    if s.len() == 0 {
        Seq::empty()
    } else {
        ser_node(s[0]) + ser_nodes(s.drop_first())
    }
}

/// An element's attributes serialised in stored order.
fn ser_attrs_exec(attrs: &Vec<(String, String)>) -> (r: String)
    ensures
        r@ == ser_attrs(attrs.deep_view()),
{
    let ghost av = attrs.deep_view();
    let mut out = String::new();
    proof {
        assert(av.take(0) =~= Seq::<(Seq<char>, Seq<char>)>::empty());
    }
    let mut i: usize = 0;
    while i < attrs.len()
        invariant
            av == attrs.deep_view(),
            i <= av.len(),
            av.len() == attrs@.len(),
            out@ == concat_map(
                av.take(i as int),
                |p: (Seq<char>, Seq<char>)| " "@ + p.0 + "=\""@ + esc_attr(p.1) + "\""@,
            ),
        decreases attrs.len() - i,
    {
        let ghost pre = out@;
        let pair = &attrs[i];
        proof {
            assert(av[i as int] == (pair.0@, pair.1@));
        }
        let mut piece = String::from_str(" ");
        piece.append(pair.0.as_str());
        piece.append("=\"");
        let ev = esc_attr_exec(pair.1.as_str());
        piece.append(ev.as_str());
        piece.append("\"");
        proof {
            assert(piece@ =~= " "@ + pair.0@ + "=\""@ + esc_attr(pair.1@) + "\""@);
        }
        out.append(piece.as_str());
        proof {
            assert(av.take(i + 1) =~= av.take(i as int).push(av[i as int]));
            lemma_concat_map_push(
                av.take(i as int),
                |p: (Seq<char>, Seq<char>)| " "@ + p.0 + "=\""@ + esc_attr(p.1) + "\""@,
                av[i as int],
            );
        }
        i = i + 1;
    }
    proof {
        assert(av.take(av.len() as int) =~= av);
    }
    out
}

/// The serialised markup of one node.
fn ser_node_exec(n: &HtmlNode) -> (r: String)
    ensures
        r@ == ser_node(n@),
    decreases n,
{
    match n {
        HtmlNode::Text(t) => esc_text_exec(t.as_str()),
        HtmlNode::Element(e) => ser_elem_exec(e),
        HtmlNode::Other => String::new(),
    }
}

/// The serialised markup of an element.
pub fn ser_elem_exec(e: &HtmlElement) -> (r: String)
    ensures
        r@ == ser_elem(e@),
    decreases e,
{
    let mut out = String::from_str("<");
    out.append(e.tag.as_str());
    let at = ser_attrs_exec(&e.attrs);
    out.append(at.as_str());
    out.append(">");
    let ghost head = "<"@ + e@.tag + ser_attrs(e@.attrs) + ">"@;
    proof {
        assert(out@ =~= head);
    }
    if is_void_exec(e.tag.as_str()) {
        proof {
            assert(head + Seq::<char>::empty() =~= head);
        }
        out
    } else {
        let ch = ser_children_exec(&e.children);
        out.append(ch.as_str());
        out.append("</");
        out.append(e.tag.as_str());
        out.append(">");
        proof {
            assert(out@ =~= head + (ser_nodes(e@.children) + "</"@ + e@.tag + ">"@));
        }
        out
    }
}

/// The serialised markup of a list of sibling nodes, left to right.
fn ser_children_exec(v: &Vec<HtmlNode>) -> (r: String)
    ensures
        r@ == ser_nodes(nodes_view(v@)),
    decreases v,
{
    let ghost w = nodes_view(v@);
    proof {
        crate::dom::lemma_nodes_view_len(v@);
        assert(w.skip(0) =~= w);
    }
    let mut out = String::new();
    let mut i: usize = 0;
    while i < v.len()
        invariant
            w == nodes_view(v@),
            w.len() == v@.len(),
            i <= v@.len(),
            out@ + ser_nodes(w.skip(i as int)) == ser_nodes(w),
        decreases v.len() - i,
    {
        let ghost pre = out@;
        proof {
            crate::dom::lemma_nodes_view_index(v@, i as int);
            assert(w.skip(i as int)[0] == w[i as int]);
        }
        let piece = ser_node_exec(&v[i]);
        out.append(piece.as_str());
        proof {
            assert(w.skip(i as int).drop_first() =~= w.skip(i + 1));
            assert(ser_nodes(w.skip(i as int)) == ser_node(w[i as int]) + ser_nodes(
                w.skip(i + 1),
            ));
            assert((pre + ser_node(w[i as int])) + ser_nodes(w.skip(i + 1)) =~= pre + (ser_node(
                w[i as int],
            ) + ser_nodes(w.skip(i + 1))));
        }
        i = i + 1;
    }
    proof {
        assert(w.skip(w.len() as int).len() == 0);
        assert(out@ + Seq::<char>::empty() =~= out@);
    }
    out
}

/// The first element node at or after position `i`, if any.
pub open spec fn next_elem_at(s: Seq<NodeView>, i: int) -> Option<ElemView>
    decreases s.len() - i,
{
    if i < 0 || i >= s.len() {
        None
    } else {
        match s[i] {
            NodeView::Elem(e) => Some(e),
            _ => next_elem_at(s, i + 1),
        }
    }
}

/// The effect/fallback pairs found at or after position `i` of a sibling
/// list, and in the subtrees of all its elements, in document order: an
/// element answering the effect query whose next element sibling is a
/// `noscript` fallback, paired with that fallback.
pub open spec fn deanim_from(m: MatcherView, s: Seq<NodeView>, i: int) -> Seq<
    (ElemView, ElemView),
>
    decreases s, s.len() - i,
{
    if i < 0 || i >= s.len() {
        Seq::empty()
    } else {
        match s[i] {
            NodeView::Elem(e) => {
                let own = match next_elem_at(s, i + 1) {
                    Some(ne) => {
                        if elem_matches(m, e) && ne.tag == "noscript"@ {
                            seq![(e, ne)]
                        } else {
                            Seq::empty()
                        }
                    },
                    None => Seq::empty(),
                };
                own + deanim_from(m, e.children, 0) + deanim_from(m, s, i + 1)
            },
            _ => deanim_from(m, s, i + 1),
        }
    }
}

/// What one effect/fallback pair does to the serialised markup: the effect
/// wrapper's markup is replaced by nothing, and the fallback's markup by
/// its own inner markup.
pub open spec fn pair_replacements(ps: Seq<(ElemView, ElemView)>) -> Seq<
    (Seq<char>, Seq<char>),
> {
    concat_map(
        ps,
        |p: (ElemView, ElemView)|
            seq![
                (ser_elem(p.0), Seq::<char>::empty()),
                (ser_elem(p.1), ser_nodes(p.1.children)),
            ],
    )
}

/// The replacements applied one after the other, left to right.
pub open spec fn apply_replacements(text: Seq<char>, rs: Seq<(Seq<char>, Seq<char>)>) -> Seq<
    char,
>
    decreases rs.len(),
{
    if rs.len() == 0 {
        text
    } else {
        apply_replacements(str_replace(text, rs[0].0, rs[0].1), rs.drop_first())
    }
}

/// The first element node at or after position `start`.
fn next_elem_exec<'a>(v: &'a Vec<HtmlNode>, start: usize) -> (r: Option<&'a HtmlElement>)
    ensures
        match r {
            Some(e) => next_elem_at(nodes_view(v@), start as int) == Some(e@),
            None => next_elem_at(nodes_view(v@), start as int) is None,
        },
{
    let ghost w = nodes_view(v@);
    proof {
        crate::dom::lemma_nodes_view_len(v@);
    }
    let mut j: usize = start;
    while j < v.len()
        invariant
            w == nodes_view(v@),
            w.len() == v@.len(),
            start <= j,
            next_elem_at(w, start as int) == next_elem_at(w, j as int),
        decreases v.len() - j,
    {
        proof {
            crate::dom::lemma_nodes_view_index(v@, j as int);
        }
        match &v[j] {
            HtmlNode::Element(e) => {
                return Some(e);
            },
            _ => {},
        }
        j = j + 1;
    }
    None
}

/// Collects into `out` the replacement pairs that de-animate every
/// effect/fallback pair found among these nodes and their subtrees.
fn collect_deanim(m: &Matcher, v: &Vec<HtmlNode>, out: &mut Vec<(String, String)>)
    ensures
        final(out).deep_view() == old(out).deep_view() + pair_replacements(
            deanim_from(m@, nodes_view(v@), 0),
        ),
    decreases v,
{
    let ghost w = nodes_view(v@);
    let ghost orig = out.deep_view();
    proof {
        crate::dom::lemma_nodes_view_len(v@);
        assert(pair_replacements(Seq::<(ElemView, ElemView)>::empty()) =~= Seq::<
            (Seq<char>, Seq<char>),
        >::empty());
        assert(orig + Seq::<(Seq<char>, Seq<char>)>::empty() =~= orig);
    }
    let mut i: usize = 0;
    while i < v.len()
        invariant
            w == nodes_view(v@),
            w.len() == v@.len(),
            i <= v@.len(),
            orig == old(out).deep_view(),
            out.deep_view() + pair_replacements(deanim_from(m@, w, i as int)) == orig
                + pair_replacements(deanim_from(m@, w, 0)),
        decreases v.len() - i,
    {
        let ghost pre = out.deep_view();
        proof {
            crate::dom::lemma_nodes_view_index(v@, i as int);
        }
        match &v[i] {
            HtmlNode::Element(e) => {
                let ghost own = match next_elem_at(w, i + 1) {
                    Some(ne) => {
                        if elem_matches(m@, e@) && ne.tag == "noscript"@ {
                            seq![(e@, ne)]
                        } else {
                            Seq::<(ElemView, ElemView)>::empty()
                        }
                    },
                    None => Seq::<(ElemView, ElemView)>::empty(),
                };
                if elem_matches_exec(m, e) {
                    match next_elem_exec(v, i + 1) {
                        Some(ne) => {
                            if str_eq(ne.tag.as_str(), "noscript") {
                                let needle = ser_elem_exec(e);
                                out.push((needle, String::new()));
                                let fb = ser_elem_exec(ne);
                                let inner = ser_children_exec(&ne.children);
                                out.push((fb, inner));
                                proof {
                                    lemma_concat_map_singleton(
                                        (e@, ne@),
                                        |p: (ElemView, ElemView)|
                                            seq![
                                                (ser_elem(p.0), Seq::<char>::empty()),
                                                (ser_elem(p.1), ser_nodes(p.1.children)),
                                            ],
                                    );
                                    assert(out.deep_view() =~= pre + pair_replacements(own));
                                }
                            } else {
                                proof {
                                    assert(pair_replacements(own) =~= Seq::<
                                        (Seq<char>, Seq<char>),
                                    >::empty());
                                    assert(out.deep_view() =~= pre + pair_replacements(own));
                                }
                            }
                        },
                        None => {
                            proof {
                                assert(pair_replacements(own) =~= Seq::<
                                    (Seq<char>, Seq<char>),
                                >::empty());
                                assert(out.deep_view() =~= pre + pair_replacements(own));
                            }
                        },
                    }
                } else {
                    proof {
                        assert(pair_replacements(own) =~= Seq::<
                            (Seq<char>, Seq<char>),
                        >::empty());
                        assert(out.deep_view() =~= pre + pair_replacements(own));
                    }
                }
                collect_deanim(m, &e.children, out);
                proof {
                    let cpart = deanim_from(m@, nodes_view(e.children@), 0);
                    let rpart = deanim_from(m@, w, i + 1);
                    assert(deanim_from(m@, w, i as int) == own + cpart + rpart);
                    lemma_concat_map_concat(
                        own + cpart,
                        rpart,
                        |p: (ElemView, ElemView)|
                            seq![
                                (ser_elem(p.0), Seq::<char>::empty()),
                                (ser_elem(p.1), ser_nodes(p.1.children)),
                            ],
                    );
                    lemma_concat_map_concat(
                        own,
                        cpart,
                        |p: (ElemView, ElemView)|
                            seq![
                                (ser_elem(p.0), Seq::<char>::empty()),
                                (ser_elem(p.1), ser_nodes(p.1.children)),
                            ],
                    );
                    assert(out.deep_view() == pre + pair_replacements(own) + pair_replacements(
                        cpart,
                    ));
                    assert((pre + pair_replacements(own) + pair_replacements(cpart))
                        + pair_replacements(rpart) =~= pre + ((pair_replacements(own)
                        + pair_replacements(cpart)) + pair_replacements(rpart)));
                }
            },
            _ => {
                proof {
                    assert(deanim_from(m@, w, i as int) == deanim_from(m@, w, i + 1));
                }
            },
        }
        i = i + 1;
    }
    proof {
        assert(deanim_from(m@, w, w.len() as int) =~= Seq::<(ElemView, ElemView)>::empty());
        assert(pair_replacements(Seq::<(ElemView, ElemView)>::empty()) =~= Seq::<
            (Seq<char>, Seq<char>),
        >::empty());
        assert(out.deep_view() + Seq::<(Seq<char>, Seq<char>)>::empty() =~= out.deep_view());
    }
}

/// Applies the collected replacements to `text`, one after the other.
fn apply_replacements_exec(text: String, reps: &Vec<(String, String)>) -> (r: String)
    ensures
        r@ == apply_replacements(text@, reps.deep_view()),
{
    let ghost rv = reps.deep_view();
    let ghost t0 = text@;
    proof {
        assert(rv.skip(0) =~= rv);
    }
    let mut cur = text;
    let mut i: usize = 0;
    while i < reps.len()
        invariant
            rv == reps.deep_view(),
            i <= reps@.len(),
            rv.len() == reps@.len(),
            apply_replacements(cur@, rv.skip(i as int)) == apply_replacements(t0, rv),
        decreases reps.len() - i,
    {
        let pair = &reps[i];
        proof {
            assert(rv[i as int] == (pair.0@, pair.1@));
            assert(rv.skip(i as int)[0] == rv[i as int]);
            assert(rv.skip(i as int).drop_first() =~= rv.skip(i + 1));
        }
        cur = replace_str(cur.as_str(), pair.0.as_str(), pair.1.as_str());
        i = i + 1;
    }
    proof {
        assert(rv.skip(rv.len() as int).len() == 0);
    }
    cur
}

/// The static asset texts a snapshot inlines, supplied by the caller: the
/// page stylesheet, the baseline page script, and the two bodies appended
/// only for chart-capable results.
#[derive(Debug, Clone)]
pub struct Assets {
    pub app_css: String,
    pub shindan_js: String,
    pub app_js: String,
    pub chart_js: String,
}

/// Mathematical view of the asset texts.
pub ghost struct AssetsView {
    pub app_css: Seq<char>,
    pub shindan_js: Seq<char>,
    pub app_js: Seq<char>,
    pub chart_js: Seq<char>,
}

impl View for Assets {
    type V = AssetsView;

    open spec fn view(&self) -> AssetsView {
        AssetsView {
            app_css: self.app_css@,
            shindan_js: self.shindan_js@,
            app_js: self.app_js@,
            chart_js: self.chart_js@,
        }
    }
}

/// The first of these elements whose serialised markup contains `id`.
pub open spec fn first_script_with(s: Seq<ElemView>, id: Seq<char>) -> Option<ElemView>
    decreases s.len(),
{
    if s.len() == 0 {
        None
    } else if str_contains(ser_elem(s[0]), id) {
        Some(s[0])
    } else {
        first_script_with(s.drop_first(), id)
    }
}

/// The serialised markup of the first `script` element of the document
/// whose markup contains the page id.
///
/// Succeeds exactly when such a script exists; otherwise the result is
/// `ScriptNotFound` carrying the id.
pub fn get_first_script(doc: &HtmlElement, id: &str) -> (r: Result<String, ShindanError>)
    ensures
        match r {
            Ok(s) => first_script_with(all_in_elem(MatcherView::Tag("script"@), doc@), id@)
                matches Some(e) && s@ == ser_elem(e),
            Err(err) => first_script_with(all_in_elem(MatcherView::Tag("script"@), doc@), id@)
                is None && (err matches ShindanError::ScriptNotFound(w) && w@ == id@),
        },
{
    let m = Matcher::Tag(String::from_str("script"));
    let scripts = all_in_doc(&m, doc);
    let ghost sv = all_in_elem(MatcherView::Tag("script"@), doc@);
    proof {
        assert(refs_view(scripts@) == sv);
        assert(sv.skip(0) =~= sv);
    }
    let mut i: usize = 0;
    while i < scripts.len()
        invariant
            sv == all_in_elem(MatcherView::Tag("script"@), doc@),
            refs_view(scripts@) == sv,
            scripts@.len() == sv.len(),
            i <= sv.len(),
            first_script_with(sv, id@) == first_script_with(sv.skip(i as int), id@),
        decreases scripts.len() - i,
    {
        let el = scripts[i];
        proof {
            assert(el@ == sv[i as int]);
            assert(sv.skip(i as int)[0] == sv[i as int]);
        }
        let html = ser_elem_exec(el);
        if str_contains_exec(html.as_str(), id) {
            proof {
                assert(sv.skip(i as int).len() > 0);
                assert(ser_elem(sv.skip(i as int)[0]) == html@);
                assert(first_script_with(sv.skip(i as int), id@) == Some(sv[i as int]));
            }
            return Ok(html);
        }
        proof {
            assert(sv.skip(i as int).drop_first() =~= sv.skip(i + 1));
        }
        i = i + 1;
    }
    proof {
        assert(sv.skip(sv.len() as int).len() == 0);
    }
    Err(ShindanError::ScriptNotFound(id.to_owned()))
}

/// How building a snapshot can fail.
pub ghost enum SnapshotIssue {
    /// The result-and-title container is absent from the document.
    MissingContainer,
    /// The raw text signals a chart result, but no script names the id.
    MissingScript,
}

/// The de-animating replacements of a whole document: first those for the
/// typing effect, then those for the shuffle effect, each set in document
/// order.
pub open spec fn snapshot_replacements(doc: ElemView) -> Seq<(Seq<char>, Seq<char>)> {
    pair_replacements(deanim_from(MatcherView::SpanEffect("ef_typing"@), doc.children, 0))
        + pair_replacements(deanim_from(MatcherView::SpanEffect("ef_shuffle"@), doc.children, 0))
}

/// The snapshot document built from a result page: the de-animated markup
/// of the result-and-title container substituted into the template, with
/// the base URL injected; when the raw response text contains the
/// `chart.js` marker, the two extra script bodies and the page's own script
/// are substituted into the script region, and that script's absence is an
/// error; otherwise the script placeholder stays as it is.
pub open spec fn snapshot_of(
    doc: ElemView,
    raw: Seq<char>,
    id: Seq<char>,
    base_url: Seq<char>,
    a: AssetsView,
) -> Result<Seq<char>, SnapshotIssue> {
    match find_in_elem(MatcherView::Id("title_and_result"@), doc) {
        None => Err(SnapshotIssue::MissingContainer),
        Some(c) => {
            let content = apply_replacements(ser_elem(c), snapshot_replacements(doc));
            let body = str_replace(
                str_replace(
                    crate::html_template::template_text(a.app_css, a.shindan_js),
                    "<!-- BASE_URL -->"@,
                    base_url,
                ),
                "<!-- TITLE_AND_RESULT -->"@,
                content,
            );
            if str_contains(raw, "chart.js"@) {
                match first_script_with(all_in_elem(MatcherView::Tag("script"@), doc), id) {
                    None => Err(SnapshotIssue::MissingScript),
                    Some(se) => Ok(
                        str_replace(
                            body,
                            "<!-- SCRIPTS -->"@,
                            "<script>"@ + a.app_js + "</script>\n<script>"@ + a.chart_js
                                + "</script>\n"@ + ser_elem(se),
                        ),
                    ),
                }
            } else {
                Ok(body)
            }
        },
    }
}

/// The standalone HTML snapshot of a parsed result page.
///
/// Succeeds exactly when the result-and-title container is present and,
/// for a chart-capable result, a script naming the id exists; the two
/// failures are `ElementNotFound("title_and_result")` and
/// `ScriptNotFound(id)`.
pub fn construct_html_result_doc(
    doc: &HtmlElement,
    id: &str,
    raw: &str,
    base_url: &str,
    assets: &Assets,
) -> (r: Result<String, ShindanError>)
    ensures
        match r {
            Ok(h) => snapshot_of(doc@, raw@, id@, base_url@, assets@) == Ok::<
                _,
                SnapshotIssue,
            >(h@),
            Err(e) => (match snapshot_of(doc@, raw@, id@, base_url@, assets@) {
                Err(SnapshotIssue::MissingContainer) => e matches ShindanError::ElementNotFound(w)
                    && w@ == "title_and_result"@,
                Err(SnapshotIssue::MissingScript) => e matches ShindanError::ScriptNotFound(w)
                    && w@ == id@,
                Ok(_) => false,
            }),
        },
{
    let cm = Matcher::Id(String::from_str("title_and_result"));
    let container = match find_in_doc(&cm, doc) {
        Some(c) => c,
        None => {
            return Err(ShindanError::ElementNotFound(String::from_str("title_and_result")));
        },
    };
    let base0 = ser_elem_exec(container);
    let mut reps: Vec<(String, String)> = Vec::new();
    proof {
        assert(reps.deep_view() =~= Seq::<(Seq<char>, Seq<char>)>::empty());
    }
    let mt = Matcher::SpanEffect(String::from_str("ef_typing"));
    collect_deanim(&mt, &doc.children, &mut reps);
    let ms = Matcher::SpanEffect(String::from_str("ef_shuffle"));
    collect_deanim(&ms, &doc.children, &mut reps);
    proof {
        assert(Seq::<(Seq<char>, Seq<char>)>::empty() + pair_replacements(
            deanim_from(MatcherView::SpanEffect("ef_typing"@), doc@.children, 0),
        ) =~= pair_replacements(
            deanim_from(MatcherView::SpanEffect("ef_typing"@), doc@.children, 0),
        ));
        assert(reps.deep_view() == snapshot_replacements(doc@));
    }
    let content = apply_replacements_exec(base0, &reps);
    let tpl = crate::html_template::build_html(assets.app_css.as_str(), assets.shindan_js.as_str());
    let b1 = replace_str(tpl.as_str(), "<!-- BASE_URL -->", base_url);
    let body = replace_str(b1.as_str(), "<!-- TITLE_AND_RESULT -->", content.as_str());
    if str_contains_exec(raw, "chart.js") {
        match get_first_script(doc, id) {
            Ok(script) => {
                let mut sc = String::from_str("<script>");
                sc.append(assets.app_js.as_str());
                sc.append("</script>\n<script>");
                sc.append(assets.chart_js.as_str());
                sc.append("</script>\n");
                sc.append(script.as_str());
                Ok(replace_str(body.as_str(), "<!-- SCRIPTS -->", sc.as_str()))
            },
            Err(e) => Err(e),
        }
    } else {
        Ok(body)
    }
}

/// The standalone HTML snapshot of a result page given as response text.
pub fn construct_html_result(id: &str, response_text: &str, base_url: &str, assets: &Assets) -> (r:
    Result<String, ShindanError>)
    ensures
        match r {
            Ok(h) => snapshot_of(parsed_doc(response_text@), response_text@, id@, base_url@, assets@)
                == Ok::<_, SnapshotIssue>(h@),
            Err(e) => (match snapshot_of(
                parsed_doc(response_text@),
                response_text@,
                id@,
                base_url@,
                assets@,
            ) {
                Err(SnapshotIssue::MissingContainer) => e matches ShindanError::ElementNotFound(w)
                    && w@ == "title_and_result"@,
                Err(SnapshotIssue::MissingScript) => e matches ShindanError::ScriptNotFound(w)
                    && w@ == id@,
                Ok(_) => false,
            }),
        },
{
    let doc = parse_page(response_text);
    construct_html_result_doc(&doc, id, response_text, base_url, assets)
}

} // verus!
