//! Extraction of title, description, hidden form tokens and the session
//! cookie from a page, as specified functions over the document model.

use vstd::prelude::*;
use vstd::string::StringExecFns;
use crate::dom::{
    ElemView, HtmlElement, HtmlNode, Matcher, MatcherView, NodeView, elem_attr, find_in_doc,
    find_in_elem, get_attr, all_in_doc, all_in_elem, pairs_lookup, parse_page, parsed_doc,
};
use crate::error::ShindanError;
use crate::text::{concat_map, lemma_concat_map_push, str_eq};

verus! {

/// The page title: the `data-shindan_title` attribute of the unique element
/// whose id is `shindanTitle`. `None` when the element or the attribute is
/// absent.
pub open spec fn title_of(doc: ElemView) -> Option<Seq<char>> {
    match find_in_elem(MatcherView::Id("shindanTitle"@), doc) {
        Some(e) => elem_attr(e, "data-shindan_title"@),
        None => None,
    }
}

/// The title of a parsed page.
///
/// Returns the title exactly when `title_of` yields one; otherwise the
/// element or its marker attribute is absent and the result is
/// `ElementNotFound("title")`.
pub fn extract_title_doc(doc: &HtmlElement) -> (r: Result<String, ShindanError>)
    ensures
        match r {
            Ok(t) => title_of(doc@) == Some(t@),
            Err(e) => title_of(doc@) is None && (e matches ShindanError::ElementNotFound(w)
                && w@ == "title"@),
        },
{
    let m = Matcher::Id(String::from_str("shindanTitle"));
    match find_in_doc(&m, doc) {
        Some(el) => match get_attr(el, "data-shindan_title") {
            Some(v) => Ok(v.clone()),
            None => Err(ShindanError::ElementNotFound(String::from_str("title"))),
        },
        None => Err(ShindanError::ElementNotFound(String::from_str("title"))),
    }
}

/// The title of a page given as response text.
pub fn extract_title(response_text: &str) -> (r: Result<String, ShindanError>)
    ensures
        match r {
            Ok(t) => title_of(parsed_doc(response_text@)) == Some(t@),
            Err(e) => title_of(parsed_doc(response_text@)) is None && (e
                matches ShindanError::ElementNotFound(w) && w@ == "title"@),
        },
{
    let doc = parse_page(response_text);
    extract_title_doc(&doc)
}

/// What one child of the description container contributes to the
/// description: a text node its literal text; a line break a newline; any
/// other element the text of its first child when that child is a text node
/// (one level of unwrap, no deeper recursion); anything else nothing.
pub open spec fn desc_piece(n: NodeView) -> Seq<char> {
    match n {
        NodeView::Text(t) => t,
        NodeView::Elem(e) => {
            if e.tag == "br"@ {
                "\n"@
            } else if e.children.len() > 0 && e.children[0] is Text {
                e.children[0]->Text_0
            } else {
                Seq::empty()
            }
        },
        NodeView::Other => Seq::empty(),
    }
}

/// The description text built from the children of the description
/// container, concatenated in document order with no separator.
pub open spec fn description_text(s: Seq<NodeView>) -> Seq<char> {
    concat_map(s, |n: NodeView| desc_piece(n))
}

/// The page description: built by walking the children of the unique element
/// whose id is `shindanDescriptionDisplay`. `None` when that element is
/// absent.
pub open spec fn description_of(doc: ElemView) -> Option<Seq<char>> {
    match find_in_elem(MatcherView::Id("shindanDescriptionDisplay"@), doc) {
        Some(e) => Some(description_text(e.children)),
        None => None,
    }
}

/// The description of a parsed page.
///
/// Returns the description exactly when the container element is present;
/// otherwise the result is `ElementNotFound("description")`.
pub fn extract_description_doc(doc: &HtmlElement) -> (r: Result<String, ShindanError>)
    ensures
        match r {
            Ok(t) => description_of(doc@) == Some(t@),
            Err(e) => description_of(doc@) is None && (e matches ShindanError::ElementNotFound(w)
                && w@ == "description"@),
        },
{
    let m = Matcher::Id(String::from_str("shindanDescriptionDisplay"));
    match find_in_doc(&m, doc) {
        None => Err(ShindanError::ElementNotFound(String::from_str("description"))),
        Some(el) => {
            let ghost w = el@.children;
            proof {
                crate::dom::lemma_nodes_view_len(el.children@);
                assert(w.take(0) =~= Seq::<NodeView>::empty());
            }
            let mut out = String::new();
            let mut i: usize = 0;
            while i < el.children.len()
                invariant
                    w == el@.children,
                    w == crate::dom::nodes_view(el.children@),
                    w.len() == el.children@.len(),
                    i <= w.len(),
                    out@ == description_text(w.take(i as int)),
                decreases el.children.len() - i,
            {
                proof {
                    crate::dom::lemma_nodes_view_index(el.children@, i as int);
                }
                let piece: String = match &el.children[i] {
                    HtmlNode::Text(t) => t.clone(),
                    HtmlNode::Element(e2) => {
                        if str_eq(e2.tag.as_str(), "br") {
                            String::from_str("\n")
                        } else if e2.children.len() > 0 {
                            proof {
                                crate::dom::lemma_nodes_view_index(e2.children@, 0);
                            }
                            match &e2.children[0] {
                                HtmlNode::Text(t) => t.clone(),
                                _ => String::new(),
                            }
                        } else {
                            String::new()
                        }
                    },
                    HtmlNode::Other => String::new(),
                };
                assert(piece@ == desc_piece(w[i as int]));
                out.append(piece.as_str());
                proof {
                    assert(w.take(i + 1) =~= w.take(i as int).push(w[i as int]));
                    lemma_concat_map_push(
                        w.take(i as int),
                        |n: NodeView| desc_piece(n),
                        w[i as int],
                    );
                }
                i = i + 1;
            }
            proof {
                assert(w.take(w.len() as int) =~= w);
            }
            Ok(out)
        },
    }
}

/// The description of a page given as response text.
pub fn extract_description(response_text: &str) -> (r: Result<String, ShindanError>)
    ensures
        match r {
            Ok(t) => description_of(parsed_doc(response_text@)) == Some(t@),
            Err(e) => description_of(parsed_doc(response_text@)) is None && (e
                matches ShindanError::ElementNotFound(w) && w@ == "description"@),
        },
{
    let doc = parse_page(response_text);
    extract_description_doc(&doc)
}

/// The `value` attribute of the first `input` element named `field`, or
/// `None` when no such element exists or it has no `value` attribute.
pub open spec fn input_value(doc: ElemView, field: Seq<char>) -> Option<Seq<char>> {
    match find_in_elem(MatcherView::InputNamed(field), doc) {
        Some(e) => elem_attr(e, "value"@),
        None => None,
    }
}

/// Whether the page carries an `input` element named `field` at all.
pub open spec fn has_input(doc: ElemView, field: Seq<char>) -> bool {
    find_in_elem(MatcherView::InputNamed(field), doc) is Some
}

/// The submission pair a dynamically discovered `parts[n]` input element
/// contributes: its own `name` attribute, valued with the display name.
pub open spec fn part_piece(e: ElemView, name: Seq<char>) -> Seq<(Seq<char>, Seq<char>)> {
    match elem_attr(e, "name"@) {
        Some(n) => seq![(n, name)],
        None => Seq::empty(),
    }
}

/// The pairs contributed by every `input` whose name starts with `parts[`,
/// in document order of discovery, each valued with the display name.
pub open spec fn parts_pairs(doc: ElemView, name: Seq<char>) -> Seq<(Seq<char>, Seq<char>)> {
    concat_map(
        all_in_elem(MatcherView::InputNamePrefix("parts["@), doc),
        |e: ElemView| part_piece(e, name),
    )
}

/// The ordered url-encoded submission body for a page and display name, or
/// the name of the first required hidden field that is missing.
///
/// The required set is `_token`, `randname` and `type`; `shindan_token` is
/// required exactly when the page's layout exposes such an input at all.
/// The pairs are the token fields, then `user_input_value_1` valued with
/// the display name, then one pair per discovered `parts[n]` input.
pub open spec fn form_data_of(doc: ElemView, name: Seq<char>) -> Result<
    Seq<(Seq<char>, Seq<char>)>,
    Seq<char>,
> {
    if input_value(doc, "_token"@) is None {
        Err("_token"@)
    } else if input_value(doc, "randname"@) is None {
        Err("randname"@)
    } else if input_value(doc, "type"@) is None {
        Err("type"@)
    } else if has_input(doc, "shindan_token"@) && input_value(doc, "shindan_token"@) is None {
        Err("shindan_token"@)
    } else {
        let base = seq![
            ("_token"@, input_value(doc, "_token"@).unwrap()),
            ("randname"@, input_value(doc, "randname"@).unwrap()),
            ("type"@, input_value(doc, "type"@).unwrap()),
        ];
        let with_tok = if has_input(doc, "shindan_token"@) {
            base.push(("shindan_token"@, input_value(doc, "shindan_token"@).unwrap()))
        } else {
            base
        };
        Ok(with_tok.push(("user_input_value_1"@, name)) + parts_pairs(doc, name))
    }
}

/// The ordered submission body for a parsed page.
///
/// Succeeds exactly when `form_data_of` does; otherwise the result is
/// `TokenNotFound` carrying the name of the first missing required field.
pub fn extract_form_data_doc(doc: &HtmlElement, name: &str) -> (r: Result<
    Vec<(String, String)>,
    ShindanError,
>)
    ensures
        match r {
            Ok(pairs) => form_data_of(doc@, name@) == Ok::<_, Seq<char>>(pairs.deep_view()),
            Err(e) => form_data_of(doc@, name@) matches Err(f) && (e
                matches ShindanError::TokenNotFound(w) && w@ == f),
        },
{
    let mut pairs: Vec<(String, String)> = Vec::new();
    let m1 = Matcher::InputNamed(String::from_str("_token"));
    let v1: String = match find_in_doc(&m1, doc) {
        Some(el) => match get_attr(el, "value") {
            Some(v) => v.clone(),
            None => {
                return Err(ShindanError::TokenNotFound(String::from_str("_token")));
            },
        },
        None => {
            return Err(ShindanError::TokenNotFound(String::from_str("_token")));
        },
    };
    let m2 = Matcher::InputNamed(String::from_str("randname"));
    let v2: String = match find_in_doc(&m2, doc) {
        Some(el) => match get_attr(el, "value") {
            Some(v) => v.clone(),
            None => {
                return Err(ShindanError::TokenNotFound(String::from_str("randname")));
            },
        },
        None => {
            return Err(ShindanError::TokenNotFound(String::from_str("randname")));
        },
    };
    let m3 = Matcher::InputNamed(String::from_str("type"));
    let v3: String = match find_in_doc(&m3, doc) {
        Some(el) => match get_attr(el, "value") {
            Some(v) => v.clone(),
            None => {
                return Err(ShindanError::TokenNotFound(String::from_str("type")));
            },
        },
        None => {
            return Err(ShindanError::TokenNotFound(String::from_str("type")));
        },
    };
    pairs.push((String::from_str("_token"), v1));
    pairs.push((String::from_str("randname"), v2));
    pairs.push((String::from_str("type"), v3));
    let ghost base = seq![
        ("_token"@, input_value(doc@, "_token"@).unwrap()),
        ("randname"@, input_value(doc@, "randname"@).unwrap()),
        ("type"@, input_value(doc@, "type"@).unwrap()),
    ];
    proof {
        assert(pairs.deep_view() =~= base);
    }
    let mt = Matcher::InputNamed(String::from_str("shindan_token"));
    match find_in_doc(&mt, doc) {
        Some(el) => match get_attr(el, "value") {
            Some(v) => {
                pairs.push((String::from_str("shindan_token"), v.clone()));
            },
            None => {
                return Err(ShindanError::TokenNotFound(String::from_str("shindan_token")));
            },
        },
        None => {},
    }
    let ghost with_tok = if has_input(doc@, "shindan_token"@) {
        base.push(("shindan_token"@, input_value(doc@, "shindan_token"@).unwrap()))
    } else {
        base
    };
    proof {
        assert(pairs.deep_view() =~= with_tok);
    }
    pairs.push((String::from_str("user_input_value_1"), name.to_owned()));
    let ghost head = with_tok.push(("user_input_value_1"@, name@));
    proof {
        assert(pairs.deep_view() =~= head);
    }
    let pm = Matcher::InputNamePrefix(String::from_str("parts["));
    let parts = all_in_doc(&pm, doc);
    let ghost ps = all_in_elem(MatcherView::InputNamePrefix("parts["@), doc@);
    proof {
        assert(crate::dom::refs_view(parts@) == ps);
        assert(ps.take(0) =~= Seq::<ElemView>::empty());
        assert(head + Seq::<(Seq<char>, Seq<char>)>::empty() =~= head);
    }
    let mut i: usize = 0;
    while i < parts.len()
        invariant
            crate::dom::refs_view(parts@) == ps,
            parts@.len() == ps.len(),
            i <= ps.len(),
            head == with_tok.push(("user_input_value_1"@, name@)),
            pairs.deep_view() == head + concat_map(
                ps.take(i as int),
                |e: ElemView| part_piece(e, name@),
            ),
        decreases parts.len() - i,
    {
        let ghost pre = pairs.deep_view();
        let el = parts[i];
        proof {
            assert(el@ == ps[i as int]);
        }
        match get_attr(el, "name") {
            Some(n) => {
                pairs.push((n.clone(), name.to_owned()));
                proof {
                    assert(pairs.deep_view() =~= pre + seq![(n@, name@)]);
                    assert(part_piece(ps[i as int], name@) == seq![(n@, name@)]);
                }
            },
            None => {
                proof {
                    assert(part_piece(ps[i as int], name@) =~= Seq::<(Seq<char>, Seq<char>)>::empty());
                    assert(pairs.deep_view() =~= pre + part_piece(ps[i as int], name@));
                }
            },
        }
        proof {
            assert(ps.take(i + 1) =~= ps.take(i as int).push(ps[i as int]));
            lemma_concat_map_push(
                ps.take(i as int),
                |e: ElemView| part_piece(e, name@),
                ps[i as int],
            );
            assert((head + concat_map(ps.take(i as int), |e: ElemView| part_piece(e, name@)))
                + part_piece(ps[i as int], name@) =~= head + (concat_map(
                ps.take(i as int),
                |e: ElemView| part_piece(e, name@),
            ) + part_piece(ps[i as int], name@)));
        }
        i = i + 1;
    }
    proof {
        assert(ps.take(ps.len() as int) =~= ps);
    }
    Ok(pairs)
}

/// The ordered submission body for a page given as response text.
pub fn extract_form_data(response_text: &str, name: &str) -> (r: Result<
    Vec<(String, String)>,
    ShindanError,
>)
    ensures
        match r {
            Ok(pairs) => form_data_of(parsed_doc(response_text@), name@) == Ok::<
                _,
                Seq<char>,
            >(pairs.deep_view()),
            Err(e) => form_data_of(parsed_doc(response_text@), name@) matches Err(f) && (e
                matches ShindanError::TokenNotFound(w) && w@ == f),
        },
{
    let doc = parse_page(response_text);
    extract_form_data_doc(&doc, name)
}

/// The value of the `_session` cookie among the response's cookies, given
/// as name/value pairs in the order the response carried them.
///
/// Succeeds exactly when a `_session` cookie is present; its absence is
/// `SessionCookieNotFound`, which marks the id as invalid or the page shape
/// as changed.
pub fn extract_session_cookie(cookies: &Vec<(String, String)>) -> (r: Result<
    String,
    ShindanError,
>)
    ensures
        match r {
            Ok(v) => pairs_lookup(cookies.deep_view(), "_session"@) == Some(v@),
            Err(e) => pairs_lookup(cookies.deep_view(), "_session"@) is None && e
                == ShindanError::SessionCookieNotFound,
        },
{
    let ghost cs = cookies.deep_view();
    proof {
        assert(cs.skip(0) =~= cs);
    }
    let mut i: usize = 0;
    while i < cookies.len()
        invariant
            cs == cookies.deep_view(),
            i <= cookies@.len(),
            cs.len() == cookies@.len(),
            pairs_lookup(cs, "_session"@) == pairs_lookup(cs.skip(i as int), "_session"@),
        decreases cookies.len() - i,
    {
        let pair = &cookies[i];
        proof {
            assert(cs[i as int] == (pair.0@, pair.1@));
            assert(cs.skip(i as int)[0] == cs[i as int]);
        }
        if str_eq(pair.0.as_str(), "_session") {
            return Ok(pair.1.clone());
        }
        proof {
            assert(cs.skip(i as int).drop_first() =~= cs.skip(i + 1));
        }
        i = i + 1;
    }
    proof {
        assert(cs.skip(cs.len() as int).len() == 0);
    }
    Err(ShindanError::SessionCookieNotFound)
}

/// The `Cookie` header value that binds a submission to its negotiated
/// session: `_session=<value>;`.
pub fn session_cookie_header(value: &str) -> (r: String)
    ensures
        r@ == "_session="@ + value@ + ";"@,
{
    let mut s = String::from_str("_session=");
    s.append(value);
    s.append(";");
    proof {
        assert(("_session="@ + value@) + ";"@ =~= "_session="@ + value@ + ";"@);
    }
    s
}

/// The title and the ordered submission body of an initial page, extracted
/// together before a submission.
///
/// Succeeds exactly when both extractions do; a missing title is reported
/// first, then the first missing required field.
pub fn extract_title_and_form_data(html_content: &str, name: &str) -> (r: Result<
    (String, Vec<(String, String)>),
    ShindanError,
>)
    ensures
        match r {
            Ok(p) => title_of(parsed_doc(html_content@)) == Some(p.0@) && form_data_of(
                parsed_doc(html_content@),
                name@,
            ) == Ok::<_, Seq<char>>(p.1.deep_view()),
            Err(e) => ({
                ||| (title_of(parsed_doc(html_content@)) is None && (e
                    matches ShindanError::ElementNotFound(w) && w@ == "title"@))
                ||| (title_of(parsed_doc(html_content@)) is Some && (form_data_of(
                    parsed_doc(html_content@),
                    name@,
                ) matches Err(f) && (e matches ShindanError::TokenNotFound(w) && w@ == f)))
            }),
        },
{
    let doc = parse_page(html_content);
    let title = match extract_title_doc(&doc) {
        Ok(t) => t,
        Err(e) => {
            return Err(e);
        },
    };
    let form = match extract_form_data_doc(&doc, name) {
        Ok(f) => f,
        Err(e) => {
            return Err(e);
        },
    };
    Ok((title, form))
}

} // verus!
