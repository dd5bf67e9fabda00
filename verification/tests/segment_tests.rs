use shindan_maker::Segment;
use shindan_maker::ShindanError;
use shindan_maker::segments::parse_segments;

fn seg_text(v: &str) -> Segment {
    Segment::Text { value: v.to_string() }
}

fn seg_image(u: &str) -> Segment {
    Segment::Image { url: u.to_string() }
}

#[test]
fn dom_walk_scenario() {
    let html = r#"<html><body><div id="shindanResult">Hello<br><img data-src="http://x/i.png"></div></body></html>"#;
    let segs = parse_segments(html).unwrap();
    assert_eq!(
        segs.0,
        vec![seg_text("Hello"), seg_text("\n"), seg_image("http://x/i.png")]
    );
}

#[test]
fn structured_payload_scenario() {
    let html = r#"<html><body><div id="shindanResult" data-blocks='[{"type":"text","content":"A"},{"type":"image","file":"http://x/i.png"}]'>ignored</div></body></html>"#;
    let segs = parse_segments(html).unwrap();
    assert_eq!(segs.0, vec![seg_text("A"), seg_image("http://x/i.png")]);
}

#[test]
fn fallback_on_empty_payload() {
    let html = r#"<html><body><div id="shindanResult" data-blocks="[]">Hello<br></div></body></html>"#;
    let segs = parse_segments(html).unwrap();
    assert_eq!(segs.0, vec![seg_text("Hello"), seg_text("\n")]);
}

#[test]
fn fallback_on_malformed_payload() {
    let html = r#"<html><body><div id="shindanResult" data-blocks="not json">Hello</div></body></html>"#;
    let segs = parse_segments(html).unwrap();
    assert_eq!(segs.0, vec![seg_text("Hello")]);
}

#[test]
fn unknown_block_types_skipped() {
    let html = r#"<html><body><div id="shindanResult" data-blocks='[{"type":"weird","content":"X"},{"type":"text","content":"B"}]'></div></body></html>"#;
    let segs = parse_segments(html).unwrap();
    assert_eq!(segs.0, vec![seg_text("B")]);
}

#[test]
fn user_input_block_is_literal_text() {
    let html = r#"<html><body><div id="shindanResult" data-blocks='[{"type":"user_input","value":"test_user"}]'></div></body></html>"#;
    let segs = parse_segments(html).unwrap();
    assert_eq!(segs.0, vec![seg_text("test_user")]);
}

#[test]
fn image_key_precedence_source_first() {
    let html = r#"<html><body><div id="shindanResult" data-blocks='[{"type":"image","src":"S","source":"R"}]'></div></body></html>"#;
    let segs = parse_segments(html).unwrap();
    assert_eq!(segs.0, vec![seg_image("R")]);
}

#[test]
fn image_key_precedence_url_before_file() {
    let html = r#"<html><body><div id="shindanResult" data-blocks='[{"type":"image","file":"F","url":"U"}]'></div></body></html>"#;
    let segs = parse_segments(html).unwrap();
    assert_eq!(segs.0, vec![seg_image("U")]);
}

#[test]
fn image_first_present_key_decides_even_when_not_a_string() {
    let html = r#"<html><body><div id="shindanResult" data-blocks='[{"type":"image","source":5,"src":"S"}]'></div></body></html>"#;
    let segs = parse_segments(html).unwrap();
    assert_eq!(segs.0.len(), 0);
}

#[test]
fn nbsp_marker_replaced_with_space() {
    let html = r#"<html><body><div id="shindanResult">a&amp;nbsp;b</div></body></html>"#;
    let segs = parse_segments(html).unwrap();
    assert_eq!(segs.0, vec![seg_text("a b")]);
}

#[test]
fn wrapper_elements_are_transparent() {
    let html = r#"<html><body><div id="shindanResult"><span><b>X</b>Y</span></div></body></html>"#;
    let segs = parse_segments(html).unwrap();
    assert_eq!(segs.0, vec![seg_text("X"), seg_text("Y")]);
}

#[test]
fn image_src_attribute_fallback() {
    let html = r#"<html><body><div id="shindanResult"><img src="u"><img></div></body></html>"#;
    let segs = parse_segments(html).unwrap();
    assert_eq!(segs.0, vec![seg_image("u")]);
}

#[test]
fn missing_container_is_error() {
    let html = r#"<html><body><div>no result here</div></body></html>"#;
    let err = parse_segments(html).unwrap_err();
    assert_eq!(err, ShindanError::ElementNotFound("result".to_string()));
}

#[test]
fn parsing_twice_yields_identical_segments() {
    let html = r#"<html><body><div id="shindanResult">Hello<br><img data-src="http://x/i.png"></div></body></html>"#;
    let first = parse_segments(html).unwrap();
    let second = parse_segments(html).unwrap();
    assert_eq!(first, second);
}

#[test]
fn segments_get_str_flattens_in_order() {
    let html = r#"<html><body><div id="shindanResult">Hello<br><img data-src="http://x/i.png"></div></body></html>"#;
    let segs = parse_segments(html).unwrap();
    assert_eq!(segs.get_str(), "Hello\nhttp://x/i.png");
}

#[test]
fn segment_new_and_get_str() {
    let t = Segment::new("text", "Hello, world!").unwrap();
    assert_eq!(t.get_str(), Some("Hello, world!".to_string()));
    let i = Segment::new("image", "http://x/i.png").unwrap();
    assert_eq!(i.get_str(), Some("http://x/i.png".to_string()));
    assert!(Segment::new("other", "x").is_none());
}
