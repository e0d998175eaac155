use clawgotchi::sanitize::preprocess_html;

#[test]
fn clean_markup_passes_through() {
    // already sanitized, single-spaced, trimmed: unchanged
    let input = "<html><body>Hi</body></html>";
    assert_eq!(preprocess_html(input), input);
}

#[test]
fn sanitizing_twice_changes_nothing_more() {
    let input = "<div onclick=\"go()\">  a\n\nb  </div> <p>x</p>";
    let once = preprocess_html(input);
    let twice = preprocess_html(&once);
    assert_eq!(once, twice);
}

#[test]
fn script_subtree_is_removed() {
    let out = preprocess_html("<html><script>var secret = 1;</script><body>Hi</body></html>");
    assert_eq!(out, "<html><body>Hi</body></html>");
    assert!(!out.contains("script"));
    assert!(!out.contains("secret"));
}

#[test]
fn style_svg_noscript_subtrees_are_removed() {
    let out = preprocess_html(
        "<style>.a{color:red}</style><svg viewBox=\"0\"><path/></svg><noscript>no js</noscript><b>kept</b>",
    );
    assert_eq!(out, "<b>kept</b>");
}

#[test]
fn unclosed_script_is_kept() {
    // the rule wants a closing tag; without one nothing matches
    let out = preprocess_html("<script>var x = 1;");
    assert_eq!(out, "<script>var x = 1;");
}

#[test]
fn case_insensitive_tags_are_removed() {
    let out = preprocess_html("<SCRIPT>x</SCRIPT><body>ok</body>");
    assert_eq!(out, "<body>ok</body>");
}

#[test]
fn event_data_style_class_attributes_are_stripped() {
    let out = preprocess_html(
        "<div onclick=\"go()\" data-id='7' style=\"x:1\" class=unstyled id=\"keep\">t</div>",
    );
    assert_eq!(out, "<div id=\"keep\">t</div>");
}

#[test]
fn whitespace_runs_collapse_and_ends_trim() {
    let out = preprocess_html("  <p>a\n\n b</p>\t ");
    assert_eq!(out, "<p>a b</p>");
}

#[test]
fn oversized_output_is_capped_with_marker() {
    let input = "a".repeat(300_000);
    let out = preprocess_html(&input);
    assert!(out.len() <= 100 * 1024 + "... [truncated]".len());
    assert!(out.ends_with("... [truncated]"));
    assert!(out.starts_with("aaa"));
}

#[test]
fn small_output_is_never_marked() {
    let input = "b".repeat(1_000);
    let out = preprocess_html(&input);
    assert_eq!(out, input);
}

#[test]
fn empty_input_is_valid() {
    assert_eq!(preprocess_html(""), "");
}

#[test]
fn unicode_whitespace_collapses_too() {
    let out = preprocess_html("a\u{00A0}\u{2009}b\u{3000}");
    assert_eq!(out, "a b");
}
