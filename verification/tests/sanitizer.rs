use sukesuke_bbs_core::sanitize::{sanitize, sanitize_non_semi_closing_num_char_refs, sanitize_thread_name};

#[test]
fn escape_stage_rewrites_unsafe_characters() {
    assert_eq!(sanitize("<>\"\r\n"), "&lt;&gt;&quot;<br>");
    assert_eq!(sanitize("hello<world>"), "hello&lt;world&gt;");
    assert_eq!(sanitize("a\rb"), "ab");
}

#[test]
fn escape_stage_drops_literal_newline_reference() {
    assert_eq!(sanitize("&#10;"), "");
    assert_eq!(sanitize("a&#10;b"), "ab");
    // The removal scans left to right once and never rescans what it built.
    assert_eq!(sanitize("&#1&#10;0;"), "&#10;");
}

#[test]
fn sanitize_is_idempotent_without_newlines() {
    for x in ["plain", "a<b>c\"d", "&#9;", "&amp;", "abc&#1x", ""] {
        let once = sanitize(x);
        assert_eq!(sanitize(&once), once);
    }
}

#[test]
fn sanitize_newline_is_why_idempotence_needs_its_proviso() {
    // A newline becomes `<br>`, which a second pass escapes again.
    assert_eq!(sanitize("\n"), "<br>");
    assert_eq!(sanitize("<br>"), "&lt;br&gt;");
}

#[test]
fn title_stage_removes_closed_newline_references() {
    assert_eq!(sanitize_thread_name("&#10;"), "");
    assert_eq!(sanitize_thread_name("&#x0A;"), "");
    assert_eq!(sanitize_thread_name("&#x0a;"), "");
    assert_eq!(sanitize_thread_name("&#X00A;"), "");
    assert_eq!(sanitize_thread_name("&#010;"), "");
    assert_eq!(sanitize_thread_name("a&#0010;b"), "ab");
}

#[test]
fn title_stage_keeps_well_formed_references_to_other_points() {
    assert_eq!(sanitize_thread_name("&#9;"), "&#9;");
    assert_eq!(sanitize_thread_name("&#x1F;"), "&#x1F;");
    assert_eq!(sanitize_thread_name("&#100;"), "&#100;");
}

#[test]
fn title_stage_truncates_unterminated_references() {
    assert_eq!(sanitize_thread_name("a&#12"), "a");
    assert_eq!(sanitize_thread_name("a&#x1"), "a");
    assert_eq!(sanitize_thread_name("a&#"), "a");
}

#[test]
fn scrubber_restarts_at_the_breaking_character() {
    // The `&` that breaks one reference may itself open the next.
    assert_eq!(sanitize_non_semi_closing_num_char_refs("&#1&#10;"), "&#10;");
    assert_eq!(sanitize_non_semi_closing_num_char_refs("&#x2&#x0A;"), "&#x0A;");
}

#[test]
fn scrubber_keeps_non_reference_text() {
    assert_eq!(sanitize_non_semi_closing_num_char_refs("&#z"), "&#z");
    assert_eq!(sanitize_non_semi_closing_num_char_refs("&#;"), "&#;");
    assert_eq!(sanitize_non_semi_closing_num_char_refs("a&b#1"), "a&b#1");
    assert_eq!(sanitize_non_semi_closing_num_char_refs("&#12;x"), "&#12;x");
}

#[test]
fn scrubber_removes_invalid_reference_and_keeps_breaking_character() {
    assert_eq!(sanitize_non_semi_closing_num_char_refs("a&#12zb"), "azb");
    assert_eq!(sanitize_non_semi_closing_num_char_refs("a&#xGzb"), "aGzb");
    assert_eq!(sanitize_non_semi_closing_num_char_refs("a&#x1Gzb"), "aGzb");
    // A bare `&#` followed by neither kind of digit is no reference attempt.
    assert_eq!(sanitize_non_semi_closing_num_char_refs("a&#qzb"), "a&#qzb");
}
