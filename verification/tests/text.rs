use styx::text::{
    contains_chars, from_chars, is_white_space, same_text, strip_html_tags, to_chars,
};

#[test]
fn tags_are_dropped() {
    assert_eq!(strip_html_tags("<p>Hello <b>world</b></p>"), "Hello world");
    assert_eq!(strip_html_tags("no tags"), "no tags");
    assert_eq!(strip_html_tags(""), "");
}

#[test]
fn entities_are_decoded() {
    assert_eq!(strip_html_tags("a &amp; b"), "a & b");
    assert_eq!(strip_html_tags("&lt;tag&gt;"), "<tag>");
    assert_eq!(strip_html_tags("&quot;q&quot; &apos;a&apos; &#39;n&#39;"), "\"q\" 'a' 'n'");
    assert_eq!(strip_html_tags("one&nbsp;two"), "one two");
    assert_eq!(strip_html_tags("&unknown;"), "&unknown;");
}

#[test]
fn entities_are_decoded_once() {
    assert_eq!(strip_html_tags("&amp;lt;"), "&lt;");
    assert_eq!(strip_html_tags("&amp;amp;"), "&amp;");
    assert_eq!(strip_html_tags("&amp;nbsp;"), "&nbsp;");
    assert_eq!(strip_html_tags("&amp"), "&amp");
    assert_eq!(strip_html_tags("&&lt;;"), "&<;");
}

#[test]
fn escaped_text_comes_back() {
    for text in ["a<b>&c", "&lt;", "\"'\"", "&amp;&apos;", "x"] {
        let escaped = text
            .replace('&', "&amp;")
            .replace('<', "&lt;")
            .replace('>', "&gt;")
            .replace('"', "&quot;")
            .replace('\'', "&apos;");
        assert_eq!(strip_html_tags(&escaped), text);
    }
}

#[test]
fn white_space_collapses() {
    assert_eq!(strip_html_tags("  a \n\t b\u{a0}c  "), "a b c");
    assert_eq!(strip_html_tags("<div>\n  <p>x</p>\n</div>"), "x");
    assert_eq!(strip_html_tags(" \n "), "");
}

#[test]
fn unclosed_tags_swallow_the_rest() {
    assert_eq!(strip_html_tags("a <b c"), "a");
    assert_eq!(strip_html_tags("a > b"), "a b");
    assert_eq!(strip_html_tags("<<a>b>c"), "bc");
}

#[test]
fn stripped_text_is_single_spaced() {
    for html in [" a  b ", "<i> x </i> y", "&nbsp;&nbsp;z&nbsp;", "\u{2003}q\u{3000}r"] {
        let text = strip_html_tags(html);
        assert!(!text.starts_with(' ') && !text.ends_with(' ') && !text.contains("  "));
    }
}

#[test]
fn white_space_is_that_of_unicode() {
    for code in 0..=0x10FFFFu32 {
        if let Some(c) = char::from_u32(code) {
            assert_eq!(is_white_space(c), c.is_whitespace(), "U+{code:04X}");
        }
    }
}

#[test]
fn characters_go_both_ways() {
    let chars = to_chars("añ€😀");
    assert_eq!(chars, vec!['a', 'ñ', '€', '😀']);
    assert_eq!(from_chars(&chars), "añ€😀");
}

#[test]
fn parts_are_found() {
    assert!(contains_chars("Dell Inc. U2720Q", "U2720Q"));
    assert!(contains_chars("abc", ""));
    assert!(contains_chars("aab", "ab"));
    assert!(!contains_chars("abc", "abcd"));
    assert!(!contains_chars("abc", "ac"));
}

#[test]
fn texts_compare_by_characters() {
    assert!(same_text("left", "left"));
    assert!(!same_text("left", "Left"));
    assert!(!same_text("", "x"));
}
