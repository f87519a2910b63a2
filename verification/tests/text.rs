use fastladder_twitter::text::{append_chars, chars_of, replace, string_of, unescape};

#[test]
fn unescape_is_one_pass_per_entity() {
    assert_eq!(unescape("&amp;lt;"), "<");
}

#[test]
fn unescape_does_not_start_over() {
    assert_eq!(unescape("&lt;amp;"), "<amp;");
    assert_eq!(unescape("&amp;amp;"), "&amp;");
    assert_eq!(unescape("&amp;amp;lt;"), "&amp;lt;");
    assert_eq!(unescape("&gt;amp;"), ">amp;");
}

#[test]
fn unescape_knows_four_entities() {
    assert_eq!(unescape("&amp;"), "&");
    assert_eq!(unescape("&quot;"), "\"");
    assert_eq!(unescape("&lt;"), "<");
    assert_eq!(unescape("&gt;"), ">");
    assert_eq!(unescape("&apos;&nbsp;&#39;"), "&apos;&nbsp;&#39;");
    assert_eq!(unescape("&AMP;&Lt;"), "&AMP;&Lt;");
}

#[test]
fn unescape_passes_build_on_each_other() {
    assert_eq!(unescape("&amp;quot;"), "\"");
    assert_eq!(unescape("&amp;gt;"), ">");
    assert_eq!(unescape("&&amp;amp;"), "&&amp;");
}

#[test]
fn unescape_leaves_plain_text() {
    assert_eq!(unescape(""), "");
    assert_eq!(unescape("plain text"), "plain text");
    assert_eq!(unescape("a & b < c"), "a & b < c");
    assert_eq!(unescape("&amp"), "&amp");
    assert_eq!(unescape("amp;"), "amp;");
    assert_eq!(unescape("caf\u{e9} &amp; th\u{e9}"), "caf\u{e9} & th\u{e9}");
}

#[test]
fn unescape_every_occurrence() {
    assert_eq!(unescape("&lt;a&gt; &amp; &lt;b&gt;"), "<a> & <b>");
    assert_eq!(unescape("&amp;&amp;&amp;"), "&&&");
}

#[test]
fn replace_scans_from_the_left() {
    assert_eq!(replace("aaa", "aa", "b"), "ba");
    assert_eq!(replace("aaaa", "aa", "b"), "bb");
    assert_eq!(replace("abab", "ab", "ba"), "baba");
    assert_eq!(replace("xyz", "y", ""), "xz");
    assert_eq!(replace("xyz", "xyz", "1"), "1");
    assert_eq!(replace("xyz", "wxyz", "1"), "xyz");
    assert_eq!(replace("", "a", "b"), "");
}

#[test]
fn replace_does_not_scan_what_it_put_in() {
    assert_eq!(replace("ab", "b", "bb"), "abb");
    assert_eq!(replace("aab", "ab", "b"), "ab");
}

#[test]
fn replace_with_an_empty_pattern_changes_nothing() {
    assert_eq!(replace("abc", "", "x"), "abc");
    assert_eq!(replace("", "", "x"), "");
}

#[test]
fn replace_agrees_with_the_standard_library() {
    let texts = ["", "a", "&amp;", "&&amp;amp;;", "xx&lt;xx&lt;", "ababab", "\u{e9}&gt;\u{e9}"];
    let patterns = ["&amp;", "&lt;", "ab", "aba", "\u{e9}", ";"];
    for text in texts {
        for pattern in patterns {
            assert_eq!(replace(text, pattern, "<>"), text.replace(pattern, "<>"));
        }
    }
}

#[test]
fn characters_round_trip() {
    assert_eq!(chars_of("h\u{e9}!"), vec!['h', '\u{e9}', '!']);
    assert_eq!(chars_of(""), Vec::<char>::new());
    assert_eq!(string_of(&vec!['a', '\u{2764}', 'b']), "a\u{2764}b");
    assert_eq!(string_of(&Vec::new()), "");
    assert_eq!(string_of(&chars_of("round trip")), "round trip");
}

#[test]
fn append_chars_keeps_what_was_there() {
    let mut out = vec!['a'];
    append_chars(&mut out, &vec!['b', 'c']);
    assert_eq!(out, vec!['a', 'b', 'c']);
    append_chars(&mut out, &Vec::new());
    assert_eq!(out, vec!['a', 'b', 'c']);
}
