use fastladder_twitter::embed::EmbedError;
use fastladder_twitter::entity::{Hashtag, Media, Url, UserMention};
use fastladder_twitter::tweet::{Entities, ExtendedEntities, Tweet, User};

fn tweet(text: &str) -> Tweet {
    Tweet {
        id_str: "1".to_owned(),
        user: User { screen_name: "alice".to_owned() },
        text: text.to_owned(),
        entities: Entities {
            urls: Vec::new(),
            hashtags: Vec::new(),
            user_mentions: Vec::new(),
            media: None,
        },
        extended_entities: None,
    }
}

fn url(target: &str, begin: usize, end: usize) -> Url {
    Url { expanded_url: target.to_owned(), indices: (begin, end) }
}

fn hashtag(tag: &str, begin: usize, end: usize) -> Hashtag {
    Hashtag { text: tag.to_owned(), indices: (begin, end) }
}

fn mention(handle: &str, begin: usize, end: usize) -> UserMention {
    UserMention { screen_name: handle.to_owned(), indices: (begin, end) }
}

fn media(target: &str, begin: usize, end: usize) -> Media {
    Media { media_url_https: target.to_owned(), indices: (begin, end) }
}

#[test]
fn text_without_annotations_is_unchanged() {
    assert_eq!(tweet("Hello, world").to_html(), Ok("Hello, world".to_owned()));
    assert_eq!(tweet("").to_html(), Ok(String::new()));
}

#[test]
fn link_at_the_end_of_the_text() {
    let mut t = tweet("Check out http://x");
    t.entities.urls.push(url("http://x", 10, 19));
    assert_eq!(
        t.to_html(),
        Ok("Check out <a href=\"http://x\">http://x</a>".to_owned())
    );
}

#[test]
fn link_that_takes_the_last_character() {
    let mut t = tweet("Check out http://x ");
    t.entities.urls.push(url("http://x", 10, 19));
    assert_eq!(
        t.to_html(),
        Ok("Check out <a href=\"http://x\">http://x</a>".to_owned())
    );
}

#[test]
fn link_inside_the_text() {
    let mut t = tweet("see http://x now");
    t.entities.urls.push(url("http://x", 4, 12));
    assert_eq!(
        t.to_html(),
        Ok("see <a href=\"http://x\">http://x</a> now".to_owned())
    );
}

#[test]
fn link_shows_the_expanded_target() {
    let mut t = tweet("go t.co/1 !");
    t.entities.urls.push(url("https://example.com/page", 3, 9));
    assert_eq!(
        t.to_html(),
        Ok("go <a href=\"https://example.com/page\">https://example.com/page</a> !".to_owned())
    );
}

#[test]
fn hashtag_links_to_the_search() {
    let mut t = tweet("I like #rust a lot");
    t.entities.hashtags.push(hashtag("rust", 7, 12));
    assert_eq!(
        t.to_html(),
        Ok("I like <a href=\"https://twitter.com/search?q=#rust&src=hash\">#rust</a> a lot".to_owned())
    );
}

#[test]
fn mention_links_to_the_profile() {
    let mut t = tweet("hi @bob!");
    t.entities.user_mentions.push(mention("bob", 3, 7));
    assert_eq!(
        t.to_html(),
        Ok("hi <a href=\"https://twitter.com/bob\">@bob</a>!".to_owned())
    );
}

#[test]
fn media_becomes_an_image_in_an_anchor() {
    let mut t = tweet("pic t.co/abc");
    t.entities.media = Some(vec![media("https://pbs.example/x.jpg", 4, 12)]);
    assert_eq!(
        t.to_html(),
        Ok("pic <a href=\"https://pbs.example/x.jpg\"><img alt=\"https://pbs.example/x.jpg\" src=\"https://pbs.example/x.jpg\"/></a>".to_owned())
    );
}

#[test]
fn same_range_concatenates_in_category_order() {
    let mut t = tweet("abc def");
    t.entities.hashtags.push(hashtag("h", 0, 3));
    t.entities.urls.push(url("u", 0, 3));
    assert_eq!(
        t.to_html(),
        Ok("<a href=\"u\">u</a><a href=\"https://twitter.com/search?q=#h&src=hash\">#h</a> def".to_owned())
    );
}

#[test]
fn all_four_categories_on_one_range() {
    let mut t = tweet("abc def");
    t.entities.media = Some(vec![media("m", 4, 7)]);
    t.entities.user_mentions.push(mention("n", 4, 7));
    t.entities.hashtags.push(hashtag("h", 4, 7));
    t.entities.urls.push(url("u", 4, 7));
    assert_eq!(
        t.to_html(),
        Ok("abc <a href=\"u\">u</a><a href=\"https://twitter.com/search?q=#h&src=hash\">#h</a><a href=\"https://twitter.com/n\">@n</a><a href=\"m\"><img alt=\"m\" src=\"m\"/></a>".to_owned())
    );
}

#[test]
fn two_links_on_one_range_keep_their_order() {
    let mut t = tweet("xy");
    t.entities.urls.push(url("1", 0, 2));
    t.entities.urls.push(url("2", 0, 2));
    assert_eq!(
        t.to_html(),
        Ok("<a href=\"1\">1</a><a href=\"2\">2</a>".to_owned())
    );
}

#[test]
fn same_begin_with_other_end_is_a_conflict() {
    let mut t = tweet("abc def");
    t.entities.urls.push(url("u", 0, 3));
    t.entities.hashtags.push(hashtag("h", 0, 5));
    assert_eq!(
        t.to_html(),
        Err(EmbedError::Conflict { begin: 0, end: 5, current_begin: 0, current_end: 3 })
    );
    assert!(t.replacements().is_err());
    assert!(t.to_feed().is_err());
}

#[test]
fn conflict_inside_one_category() {
    let mut t = tweet("abc def");
    t.entities.hashtags.push(hashtag("a", 4, 7));
    t.entities.hashtags.push(hashtag("b", 4, 6));
    assert_eq!(
        t.to_html(),
        Err(EmbedError::Conflict { begin: 4, end: 6, current_begin: 4, current_end: 7 })
    );
}

#[test]
fn first_conflict_is_the_one_reported() {
    let mut t = tweet("abc def");
    t.entities.urls.push(url("u", 0, 3));
    t.entities.urls.push(url("v", 0, 4));
    t.entities.hashtags.push(hashtag("h", 0, 5));
    assert_eq!(
        t.to_html(),
        Err(EmbedError::Conflict { begin: 0, end: 4, current_begin: 0, current_end: 3 })
    );
}

#[test]
fn annotation_behind_the_text_has_no_slot() {
    let mut t = tweet("abc");
    t.entities.user_mentions.push(mention("n", 3, 3));
    assert_eq!(
        t.to_html(),
        Err(EmbedError::OutOfRange { begin: 3, end: 3, len: 3 })
    );
    let mut t = tweet("");
    t.entities.urls.push(url("u", 0, 1));
    assert_eq!(
        t.to_html(),
        Err(EmbedError::OutOfRange { begin: 0, end: 1, len: 0 })
    );
}

#[test]
fn slots_are_counted_in_characters() {
    let mut t = tweet("h\u{e9}llo #w\u{f6}rld \u{2764}");
    t.entities.hashtags.push(hashtag("w\u{f6}rld", 6, 12));
    assert_eq!(
        t.to_html(),
        Ok("h\u{e9}llo <a href=\"https://twitter.com/search?q=#w\u{f6}rld&src=hash\">#w\u{f6}rld</a> \u{2764}".to_owned())
    );
    let mut t = tweet("\u{e9}\u{e9}");
    t.entities.urls.push(url("u", 2, 3));
    assert_eq!(
        t.to_html(),
        Err(EmbedError::OutOfRange { begin: 2, end: 3, len: 2 })
    );
}

#[test]
fn extended_media_override_basic_media() {
    let mut t = tweet("pic t.co/abc");
    t.entities.media = Some(vec![media("basic", 4, 12)]);
    t.extended_entities = Some(ExtendedEntities {
        media: vec![media("one", 4, 12), media("two", 4, 12)],
    });
    assert_eq!(
        t.to_html(),
        Ok("pic <a href=\"one\"><img alt=\"one\" src=\"one\"/></a><a href=\"two\"><img alt=\"two\" src=\"two\"/></a>".to_owned())
    );
}

#[test]
fn extended_media_override_conflicting_basic_media() {
    let mut t = tweet("pic t.co/abc");
    t.entities.media = Some(vec![media("basic", 4, 9), media("other", 40, 41)]);
    t.extended_entities = Some(ExtendedEntities { media: vec![media("one", 4, 12)] });
    assert_eq!(
        t.to_html(),
        Ok("pic <a href=\"one\"><img alt=\"one\" src=\"one\"/></a>".to_owned())
    );
}

#[test]
fn empty_extended_media_still_override() {
    let mut t = tweet("pic t.co/abc");
    t.entities.media = Some(vec![media("basic", 4, 12)]);
    t.extended_entities = Some(ExtendedEntities { media: Vec::new() });
    assert_eq!(t.to_html(), Ok("pic t.co/abc".to_owned()));
}

#[test]
fn escaped_ampersand_in_the_text() {
    assert_eq!(tweet("a &amp; b").to_html(), Ok("a & b".to_owned()));
    let mut t = tweet("a &amp; b #c");
    t.entities.hashtags.push(hashtag("c", 10, 12));
    assert_eq!(
        t.to_html(),
        Ok("a & b <a href=\"https://twitter.com/search?q=#c&src=hash\">#c</a>".to_owned())
    );
}

#[test]
fn entities_in_the_text_are_unescaped() {
    assert_eq!(
        tweet("1 &lt; 2 &amp;&amp; 3 &gt; 2 &quot;ok&quot;").to_html(),
        Ok("1 < 2 && 3 > 2 \"ok\"".to_owned())
    );
}

#[test]
fn entities_in_a_fragment_are_unescaped() {
    let mut t = tweet("go t.co/1");
    t.entities.urls.push(url("http://x/?a=1&amp;b=2", 3, 9));
    assert_eq!(
        t.to_html(),
        Ok("go <a href=\"http://x/?a=1&b=2\">http://x/?a=1&b=2</a>".to_owned())
    );
}

#[test]
fn link_and_hashtag_in_text_order() {
    let mut t = tweet("read http://x about #rust today");
    t.entities.urls.push(url("http://x", 5, 13));
    t.entities.hashtags.push(hashtag("rust", 20, 25));
    assert_eq!(
        t.to_html(),
        Ok("read <a href=\"http://x\">http://x</a> about <a href=\"https://twitter.com/search?q=#rust&src=hash\">#rust</a> today".to_owned())
    );
    let mut t = tweet("about #rust read http://x today");
    t.entities.urls.push(url("http://x", 17, 25));
    t.entities.hashtags.push(hashtag("rust", 6, 11));
    assert_eq!(
        t.to_html(),
        Ok("about <a href=\"https://twitter.com/search?q=#rust&src=hash\">#rust</a> read <a href=\"http://x\">http://x</a> today".to_owned())
    );
}

#[test]
fn order_inside_an_array_does_not_matter() {
    let mut forward = tweet("#a and #b and http://x");
    forward.entities.hashtags.push(hashtag("a", 0, 2));
    forward.entities.hashtags.push(hashtag("b", 7, 9));
    forward.entities.urls.push(url("http://x", 14, 22));
    let mut backward = tweet("#a and #b and http://x");
    backward.entities.hashtags.push(hashtag("b", 7, 9));
    backward.entities.hashtags.push(hashtag("a", 0, 2));
    backward.entities.urls.push(url("http://x", 14, 22));
    let expected = "<a href=\"https://twitter.com/search?q=#a&src=hash\">#a</a> and <a href=\"https://twitter.com/search?q=#b&src=hash\">#b</a> and <a href=\"http://x\">http://x</a>";
    assert_eq!(forward.to_html(), Ok(expected.to_owned()));
    assert_eq!(backward.to_html(), Ok(expected.to_owned()));
}

#[test]
fn adjacent_ranges() {
    let mut t = tweet("#a#b");
    t.entities.hashtags.push(hashtag("a", 0, 2));
    t.entities.hashtags.push(hashtag("b", 2, 4));
    assert_eq!(
        t.to_html(),
        Ok("<a href=\"https://twitter.com/search?q=#a&src=hash\">#a</a><a href=\"https://twitter.com/search?q=#b&src=hash\">#b</a>".to_owned())
    );
}

#[test]
fn empty_range_replaces_the_character_at_its_begin() {
    let mut t = tweet("ab");
    t.entities.urls.push(url("u", 1, 1));
    assert_eq!(t.to_html(), Ok("a<a href=\"u\">u</a>".to_owned()));
    let mut t = tweet("abc");
    t.entities.urls.push(url("u", 1, 0));
    assert_eq!(t.to_html(), Ok("a<a href=\"u\">u</a>c".to_owned()));
}

#[test]
fn range_that_reaches_behind_the_text_takes_the_rest() {
    let mut t = tweet("abcdef");
    t.entities.urls.push(url("u", 2, 100));
    assert_eq!(t.to_html(), Ok("ab<a href=\"u\">u</a>".to_owned()));
}

#[test]
fn annotation_inside_a_replaced_range_is_not_shown() {
    let mut t = tweet("abcdef");
    t.entities.urls.push(url("u", 0, 4));
    t.entities.hashtags.push(hashtag("h", 2, 6));
    assert_eq!(t.to_html(), Ok("<a href=\"u\">u</a>ef".to_owned()));
}

#[test]
fn many_annotations_in_any_order() {
    let text = "@a wrote #b at http://c with t.co/d";
    let expected = "<a href=\"https://twitter.com/a\">@a</a> wrote <a href=\"https://twitter.com/search?q=#b&src=hash\">#b</a> at <a href=\"http://c\">http://c</a> with <a href=\"https://m/d.png\"><img alt=\"https://m/d.png\" src=\"https://m/d.png\"/></a>";
    let mut t = tweet(text);
    t.entities.user_mentions.push(mention("a", 0, 2));
    t.entities.hashtags.push(hashtag("b", 9, 11));
    t.entities.urls.push(url("http://c", 15, 23));
    t.entities.media = Some(vec![media("https://m/d.png", 29, 35)]);
    assert_eq!(t.to_html(), Ok(expected.to_owned()));

    let two = "#x #y #z";
    let want = "<a href=\"https://twitter.com/search?q=#x&src=hash\">#x</a> <a href=\"https://twitter.com/search?q=#y&src=hash\">#y</a> <a href=\"https://twitter.com/search?q=#z&src=hash\">#z</a>";
    let orders: [[usize; 3]; 6] = [[0, 1, 2], [0, 2, 1], [1, 0, 2], [1, 2, 0], [2, 0, 1], [2, 1, 0]];
    for order in orders {
        let mut t = tweet(two);
        for k in order {
            let tag = ["x", "y", "z"][k];
            t.entities.hashtags.push(hashtag(tag, 3 * k, 3 * k + 2));
        }
        assert_eq!(t.to_html(), Ok(want.to_owned()));
    }
}
