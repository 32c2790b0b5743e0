use html2maud::normalize::{
    convert_hash_id_to_id_attribute, format_empty_blocks, remove_empty_lines,
};

#[test]
fn collapse_whitespace_only_block() {
    assert_eq!(format_empty_blocks("{ \n }"), "{}");
    assert_eq!(format_empty_blocks("a{  }b"), "a{}b");
}

#[test]
fn collapse_leaves_filled_blocks() {
    assert_eq!(format_empty_blocks("{ x }"), "{ x }");
    assert_eq!(format_empty_blocks("{}"), "{}");
}

#[test]
fn collapse_spans_unicode_whitespace() {
    assert_eq!(format_empty_blocks("{\u{a0}}"), "{}");
    assert_eq!(format_empty_blocks("{\u{2003}\n\u{3000}}"), "{}");
}

#[test]
fn unicode_whitespace_lines_are_blank() {
    assert_eq!(remove_empty_lines("a\n\u{a0}\u{2003}\nb"), "a\nb");
}

#[test]
fn collapse_is_leftmost_and_non_overlapping() {
    assert_eq!(format_empty_blocks("{ } }"), "{} }");
    assert_eq!(format_empty_blocks("{ { } }"), "{ {} }");
}

#[test]
fn blank_lines_are_removed() {
    assert_eq!(remove_empty_lines("a\n\n  \t\nb"), "a\nb");
    assert_eq!(remove_empty_lines("a\n"), "a");
    assert_eq!(remove_empty_lines("\n\n"), "");
}

#[test]
fn carriage_returns_at_line_ends_are_dropped() {
    assert_eq!(remove_empty_lines("a\r\nb"), "a\nb");
    assert_eq!(remove_empty_lines("a\r\n\r\nb"), "a\nb");
}

#[test]
fn unique_shorthand_is_kept() {
    assert_eq!(convert_hash_id_to_id_attribute("#main stays"), "#main stays");
}

#[test]
fn repeated_shorthand_is_promoted() {
    assert_eq!(
        convert_hash_id_to_id_attribute("#q one #q two"),
        "id=\"q\" one id=\"q\" two"
    );
}

#[test]
fn bare_occurrence_forces_promotion() {
    assert_eq!(
        convert_hash_id_to_id_attribute("#x and x here"),
        "id=\"x\" and x here"
    );
}

#[test]
fn promotion_counts_bare_hits_inside_replacements_on_a_second_pass() {
    let first = convert_hash_id_to_id_attribute("#d\n#q one\n#q two");
    assert_eq!(first, "#d\nid=\"q\" one\nid=\"q\" two");
    let second = convert_hash_id_to_id_attribute(&first);
    assert_eq!(second, "id=\"d\"\nid=\"q\" one\nid=\"q\" two");
}

#[test]
fn second_pass_is_noop_on_stable_text() {
    let once = convert_hash_id_to_id_attribute("#main stays");
    assert_eq!(convert_hash_id_to_id_attribute(&once), once);
}

#[test]
fn promotion_without_shorthands_is_identity() {
    assert_eq!(convert_hash_id_to_id_attribute("plain text"), "plain text");
    assert_eq!(convert_hash_id_to_id_attribute(""), "");
}
