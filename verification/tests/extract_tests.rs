use shindan_maker::ShindanDomain;
use shindan_maker::ShindanError;
use shindan_maker::extract::extract_description;
use shindan_maker::extract::extract_form_data;
use shindan_maker::extract::extract_session_cookie;
use shindan_maker::extract::extract_title;
use shindan_maker::extract::session_cookie_header;

fn pair(a: &str, b: &str) -> (String, String) {
    (a.to_string(), b.to_string())
}

#[test]
fn title_extraction() {
    let html = r#"<html><body><h1 id="shindanTitle" data-shindan_title="Fantasy Stats">x</h1></body></html>"#;
    assert_eq!(extract_title(html).unwrap(), "Fantasy Stats");
}

#[test]
fn title_missing_marker_attribute_is_error() {
    let html = r#"<html><body><h1 id="shindanTitle">x</h1></body></html>"#;
    let err = extract_title(html).unwrap_err();
    assert_eq!(err, ShindanError::ElementNotFound("title".to_string()));
}

#[test]
fn title_missing_element_is_error() {
    let html = r#"<html><body><h1>x</h1></body></html>"#;
    let err = extract_title(html).unwrap_err();
    assert_eq!(err, ShindanError::ElementNotFound("title".to_string()));
}

#[test]
fn description_walks_children_in_order() {
    let html = r#"<html><body><div id="shindanDescriptionDisplay">Hello<br><span>World<b>!</b></span></div></body></html>"#;
    assert_eq!(extract_description(html).unwrap(), "Hello\nWorld");
}

#[test]
fn description_unwraps_only_one_level() {
    let html = r#"<html><body><div id="shindanDescriptionDisplay"><span><b>X</b>no</span></div></body></html>"#;
    assert_eq!(extract_description(html).unwrap(), "");
}

#[test]
fn description_missing_container_is_error() {
    let html = r#"<html><body></body></html>"#;
    let err = extract_description(html).unwrap_err();
    assert_eq!(err, ShindanError::ElementNotFound("description".to_string()));
}

#[test]
fn form_data_complete_page() {
    let html = r#"<html><body><form>
        <input name="_token" value="T">
        <input name="randname" value="R">
        <input name="type" value="Y">
        <input name="parts[abc]" value="">
        <input name="parts[def]" value="">
    </form></body></html>"#;
    let pairs = extract_form_data(html, "test_user").unwrap();
    assert_eq!(
        pairs,
        vec![
            pair("_token", "T"),
            pair("randname", "R"),
            pair("type", "Y"),
            pair("user_input_value_1", "test_user"),
            pair("parts[abc]", "test_user"),
            pair("parts[def]", "test_user"),
        ]
    );
}

#[test]
fn form_data_missing_token_fails() {
    let html = r#"<html><body><form>
        <input name="randname" value="R">
        <input name="type" value="Y">
    </form></body></html>"#;
    let err = extract_form_data(html, "n").unwrap_err();
    assert_eq!(err, ShindanError::TokenNotFound("_token".to_string()));
}

#[test]
fn form_data_missing_randname_fails() {
    let html = r#"<html><body><form>
        <input name="_token" value="T">
        <input name="type" value="Y">
    </form></body></html>"#;
    let err = extract_form_data(html, "n").unwrap_err();
    assert_eq!(err, ShindanError::TokenNotFound("randname".to_string()));
}

#[test]
fn form_data_token_without_value_fails() {
    let html = r#"<html><body><form>
        <input name="_token">
        <input name="randname" value="R">
        <input name="type" value="Y">
    </form></body></html>"#;
    let err = extract_form_data(html, "n").unwrap_err();
    assert_eq!(err, ShindanError::TokenNotFound("_token".to_string()));
}

#[test]
fn layout_token_included_when_page_exposes_it() {
    let html = r#"<html><body><form>
        <input name="_token" value="T">
        <input name="randname" value="R">
        <input name="type" value="Y">
        <input name="shindan_token" value="S">
    </form></body></html>"#;
    let pairs = extract_form_data(html, "n").unwrap();
    assert_eq!(
        pairs,
        vec![
            pair("_token", "T"),
            pair("randname", "R"),
            pair("type", "Y"),
            pair("shindan_token", "S"),
            pair("user_input_value_1", "n"),
        ]
    );
}

#[test]
fn layout_token_not_required_when_absent() {
    let html = r#"<html><body><form>
        <input name="_token" value="T">
        <input name="randname" value="R">
        <input name="type" value="Y">
    </form></body></html>"#;
    let pairs = extract_form_data(html, "n").unwrap();
    assert_eq!(
        pairs,
        vec![
            pair("_token", "T"),
            pair("randname", "R"),
            pair("type", "Y"),
            pair("user_input_value_1", "n"),
        ]
    );
}

#[test]
fn layout_token_present_without_value_fails() {
    let html = r#"<html><body><form>
        <input name="_token" value="T">
        <input name="randname" value="R">
        <input name="type" value="Y">
        <input name="shindan_token">
    </form></body></html>"#;
    let err = extract_form_data(html, "n").unwrap_err();
    assert_eq!(err, ShindanError::TokenNotFound("shindan_token".to_string()));
}

#[test]
fn title_and_form_data_extracted_together() {
    let html = r#"<html><body><h1 id="shindanTitle" data-shindan_title="Fantasy Stats">x</h1><form><input name="_token" value="T"><input name="randname" value="R"><input name="type" value="Y"></form></body></html>"#;
    let (title, pairs) =
        shindan_maker::extract::extract_title_and_form_data(html, "n").unwrap();
    assert_eq!(title, "Fantasy Stats");
    assert_eq!(
        pairs,
        vec![
            pair("_token", "T"),
            pair("randname", "R"),
            pair("type", "Y"),
            pair("user_input_value_1", "n"),
        ]
    );
}

#[test]
fn title_and_form_data_reports_missing_title_first() {
    let html = r#"<html><body><form></form></body></html>"#;
    let err = shindan_maker::extract::extract_title_and_form_data(html, "n").unwrap_err();
    assert_eq!(err, ShindanError::ElementNotFound("title".to_string()));
}

#[test]
fn session_cookie_found() {
    let cookies = vec![pair("lang", "en"), pair("_session", "S1")];
    assert_eq!(extract_session_cookie(&cookies).unwrap(), "S1");
}

#[test]
fn session_cookie_missing_is_error() {
    let cookies = vec![pair("lang", "en")];
    let err = extract_session_cookie(&cookies).unwrap_err();
    assert_eq!(err, ShindanError::SessionCookieNotFound);
}

#[test]
fn cookie_header_format() {
    assert_eq!(session_cookie_header("S1"), "_session=S1;");
}

#[test]
fn domain_tags_parse_in_any_letter_case() {
    assert_eq!(ShindanDomain::from_str("JP"), Some(ShindanDomain::Jp));
    assert_eq!(ShindanDomain::from_str("en"), Some(ShindanDomain::En));
    assert_eq!(ShindanDomain::from_str("Cn"), Some(ShindanDomain::Cn));
    assert_eq!(ShindanDomain::from_str("kR"), Some(ShindanDomain::Kr));
    assert_eq!(ShindanDomain::from_str("TH"), Some(ShindanDomain::Th));
    assert_eq!(ShindanDomain::from_str("xx"), None);
    assert_eq!(ShindanDomain::from_str(""), None);
}

#[test]
fn domain_urls() {
    assert_eq!(ShindanDomain::Jp.url(), "https://shindanmaker.com/");
    assert_eq!(ShindanDomain::En.url(), "https://en.shindanmaker.com/");
    assert_eq!(ShindanDomain::Cn.url(), "https://cn.shindanmaker.com/");
    assert_eq!(ShindanDomain::Kr.url(), "https://kr.shindanmaker.com/");
    assert_eq!(ShindanDomain::Th.url(), "https://th.shindanmaker.com/");
}

#[test]
fn page_url_appends_id() {
    assert_eq!(
        ShindanDomain::En.page_url("1222992"),
        "https://en.shindanmaker.com/1222992"
    );
}
