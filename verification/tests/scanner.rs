//! Tests for the scanner primitives: delimiter search, tag location, and
//! tag-name extraction.

use tagmatch::is_space;

#[test]
fn count_until() {
    assert_eq!(tagmatch::count_until("abcd<d>", '<'), Some(4));
    assert_eq!(tagmatch::count_until("abcd<d>", 'a'), Some(0));
    assert!(tagmatch::count_until("abc", 'd').is_none());
}

#[test]
fn get_tag() {
    assert_eq!(tagmatch::get_tag_pos(" <Hello>"), Some((2, 7)));
    assert_eq!(tagmatch::get_tag_pos(" </Hello>"), Some((2, 8)));
}

#[test]
fn get_tag_name() {
    let s1 = "   <xml v=1>";
    let s2 = "   </xml>";
    let pos1 = tagmatch::get_tag_pos(s1).unwrap();
    let pos2 = tagmatch::get_tag_pos(s2).unwrap();
    assert_eq!(tagmatch::get_tag_name(s1, pos1), "xml");
    assert_eq!(tagmatch::get_tag_name(s2, pos2), "xml");
}

#[test]
fn count_until_empty() {
    assert!(tagmatch::count_until("", 'x').is_none());
}

#[test]
fn tag_pos_missing_delimiters() {
    assert!(tagmatch::get_tag_pos("no tags at all").is_none());
    assert!(tagmatch::get_tag_pos("dangling <open").is_none());
    assert!(tagmatch::get_tag_pos("only close>").is_none());
}

#[test]
fn tag_pos_close_before_open() {
    // The `>` that counts is the first one at or after the `<`.
    assert_eq!(tagmatch::get_tag_pos("a>b<cd>"), Some((4, 6)));
}

#[test]
fn tag_name_bare() {
    // Without whitespace the name runs to the tag's closing bound.
    let s = "<xml>";
    let pos = tagmatch::get_tag_pos(s).unwrap();
    assert_eq!(tagmatch::get_tag_name(s, pos), "xml");
}

#[test]
fn tag_name_stops_at_any_whitespace() {
    let s = "<xml\tv=1>";
    let pos = tagmatch::get_tag_pos(s).unwrap();
    assert_eq!(tagmatch::get_tag_name(s, pos), "xml");
}

#[test]
fn space_classification() {
    assert!(is_space(' '));
    assert!(is_space('\t'));
    assert!(is_space('\n'));
    assert!(is_space('\r'));
    assert!(!is_space('x'));
    assert!(!is_space('<'));
}
