//! The fixed document template of a snapshot: a complete HTML page with the
//! inlined stylesheet and baseline script, and three textual injection
//! points — a base URL for relative links, the content region, and the
//! script region.

use vstd::prelude::*;
use vstd::string::StringExecFns;

verus! {

/// The template text with the stylesheet and baseline script inlined and
/// the three placeholders still in place.
pub open spec fn template_text(css: Seq<char>, js: Seq<char>) -> Seq<char> {
    "<!DOCTYPE html><html lang=\"zh\" style=\"height:100%\"><head><style>"@ + css
        + "</style><meta http-equiv=\"Content-Type\" content=\"text/html;charset=utf-8\"><meta name=\"viewport\" content=\"width=device-width,initial-scale=1.0,minimum-scale=1.0\"><base href=\"<!-- BASE_URL -->\"><title>ShindanMaker</title></head><body class=\"\" style=\"position:relative;min-height:100%;top:0\"><div id=\"main-container\"><div id=\"main\"><!-- TITLE_AND_RESULT --></div></div></body><script>"@
        + js + "</script><!-- SCRIPTS --></html>"@
}

/// The snapshot document template, with the given stylesheet and baseline
/// script bodies inlined and every placeholder still in place.
pub fn build_html(app_css: &str, shindan_js: &str) -> (r: String)
    ensures
        r@ == template_text(app_css@, shindan_js@),
{
    let mut s = String::from_str(
        "<!DOCTYPE html><html lang=\"zh\" style=\"height:100%\"><head><style>",
    );
    s.append(app_css);
    s.append(
        "</style><meta http-equiv=\"Content-Type\" content=\"text/html;charset=utf-8\"><meta name=\"viewport\" content=\"width=device-width,initial-scale=1.0,minimum-scale=1.0\"><base href=\"<!-- BASE_URL -->\"><title>ShindanMaker</title></head><body class=\"\" style=\"position:relative;min-height:100%;top:0\"><div id=\"main-container\"><div id=\"main\"><!-- TITLE_AND_RESULT --></div></div></body><script>",
    );
    s.append(shindan_js);
    s.append("</script><!-- SCRIPTS --></html>");
    s
}

} // verus!
