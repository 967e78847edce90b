//! Tests for markup-to-text normalization.

use ozb::normalize::normalize;

#[test]
fn plain_text_unchanged() {
    let input = b"just a plain description, 50% off!".to_vec();
    assert_eq!(normalize(&input), input);
}

#[test]
fn plain_text_with_newlines_unchanged() {
    let input = b"line one\nline two\nline three".to_vec();
    assert_eq!(normalize(&input), input);
}

#[test]
fn empty_input_stays_empty() {
    assert_eq!(normalize(b""), b"".to_vec());
}

#[test]
fn tags_are_stripped_and_fragments_joined() {
    let out = normalize(b"<p>Great <b>deal</b></p>");
    assert_eq!(out, b"Great \ndeal".to_vec());
}

#[test]
fn img_alt_text_is_substituted() {
    let out = normalize(b"before <img src=\"x.png\" alt=\"a widget\"> after");
    assert_eq!(out, b"before \na widget\n after".to_vec());
}

#[test]
fn img_without_alt_contributes_nothing() {
    let out = normalize(b"before <img src=\"x.png\"> after");
    assert_eq!(out, b"before \n after".to_vec());
}

#[test]
fn unclosed_tag_returns_raw_input() {
    let input = b"broken <b markup".to_vec();
    assert_eq!(normalize(&input), input);
}

#[test]
fn bare_close_angle_is_text() {
    let input = b"a > b".to_vec();
    assert_eq!(normalize(&input), input);
}

#[test]
fn empty_fragments_are_dropped() {
    let out = normalize(b"<p></p><p>only</p>");
    assert_eq!(out, b"only".to_vec());
}
