//! Posts as the timeline delivers them, and the feed items made of them.

use crate::compose::{
    compose, composed, in_text_order, lemma_composed_in_any_order, lemma_composed_vacant,
    lemma_same_range_concatenates, lemma_single_span, lemma_two_spans, rest_from, substituted,
};
use crate::embed::{
    all_fit, all_render, distinct_begins, embed_all, embedded, embedded_all, ends_agree, fits,
    in_place, lemma_embedded_all_concat, lemma_embedded_all_keeps_len, lemma_merge_rearranged,
    lemma_merges_iff, lemma_other_end_conflicts, slots_of, spans_of, vacant_slots, vacant_table,
    EmbedError, Replacement, Slot,
};
use crate::entity::{Embeddable, Hashtag, Media, Span, Url, UserMention};
use crate::text::{lemma_unescaped_without_ampersand, unescape, unescaped};
use vstd::prelude::*;
use vstd::seq_lib::lemma_multiset_commutative;

verus! {

/// The author of a post.
#[derive(Debug)]
pub struct User {
    pub screen_name: String,
}

/// The annotations of a post, by category. `media` is the basic set of
/// media annotations.
#[derive(Debug)]
pub struct Entities {
    pub urls: Vec<Url>,
    pub hashtags: Vec<Hashtag>,
    pub user_mentions: Vec<UserMention>,
    pub media: Option<Vec<Media>>,
}

/// The extended set of media annotations. Where a post has it, it stands in
/// for the basic set.
#[derive(Debug)]
pub struct ExtendedEntities {
    pub media: Vec<Media>,
}

/// One post of a timeline. The offsets of its annotations count the
/// characters of `text`.
#[derive(Debug)]
pub struct Tweet {
    pub id_str: String,
    pub user: User,
    pub text: String,
    pub entities: Entities,
    pub extended_entities: Option<ExtendedEntities>,
}

/// One item of the feed, as the feed reader's update endpoint takes it.
#[derive(Debug)]
pub struct Feed {
    pub feedlink: String,
    pub feedtitle: String,
    pub author: String,
    pub title: String,
    pub body: String,
    pub link: String,
    pub category: String,
}

/// A feed item as contracts see it.
pub struct FeedView {
    pub feedlink: Seq<char>,
    pub feedtitle: Seq<char>,
    pub author: Seq<char>,
    pub title: Seq<char>,
    pub body: Seq<char>,
    pub link: Seq<char>,
    pub category: Seq<char>,
}

impl View for Feed {
    type V = FeedView;

    open spec fn view(&self) -> FeedView {
        FeedView {
            feedlink: self.feedlink@,
            feedtitle: self.feedtitle@,
            author: self.author@,
            title: self.title@,
            body: self.body@,
            link: self.link@,
            category: self.category@,
        }
    }
}

impl Tweet {
    /// The media annotations that count: the extended set where the post has
    /// one, the basic set otherwise. The two are never mixed.
    pub open spec fn media_spans(&self) -> Seq<Span> {
        match self.extended_entities {
            Some(extended) => spans_of(extended.media@),
            None => match self.entities.media {
                Some(media) => spans_of(media@),
                None => Seq::empty(),
            },
        }
    }

    /// All annotations in the order in which they are merged: links,
    /// hashtags, mentions, media.
    pub open spec fn spans(&self) -> Seq<Span> {
        spans_of(self.entities.urls@) + spans_of(self.entities.hashtags@) + spans_of(
            self.entities.user_mentions@,
        ) + self.media_spans()
    }

    /// The table for this post: one slot per character of the text, with all
    /// annotations merged in.
    pub open spec fn slots(&self) -> Result<Seq<Slot>, EmbedError> {
        embedded_all(vacant_slots(self.text@.len()), self.spans())
    }

    /// The post as HTML: text and table composed, entities unescaped.
    pub open spec fn html(&self) -> Result<Seq<char>, EmbedError> {
        match self.slots() {
            Ok(slots) => Ok(unescaped(composed(self.text@, slots))),
            Err(e) => Err(e),
        }
    }

    /// The feed item for this post.
    pub open spec fn feed(&self) -> Result<FeedView, EmbedError> {
        match self.html() {
            Ok(body) => Ok(
                FeedView {
                    feedlink: "https://twitter.com/"@ + self.user.screen_name@,
                    feedtitle: "Twitter - "@ + self.user.screen_name@,
                    author: self.user.screen_name@,
                    title: self.text@,
                    body,
                    link: "https://twitter.com/"@ + self.user.screen_name@ + "/status/"@
                        + self.id_str@,
                    category: "twitter"@,
                },
            ),
            Err(e) => Err(e),
        }
    }

    /// Builds the table for this post: one vacant slot per character of the
    /// text, then the links, the hashtags, the mentions and the media merged
    /// in, in that order.
    pub fn replacements(&self) -> (r: Result<Vec<Replacement>, EmbedError>)
        ensures
            match self.slots() {
                Ok(slots) => r matches Ok(table) && slots_of(table@) == slots && table.len()
                    == self.text@.len() && in_place(slots),
                Err(e) => r matches Err(x) && x == e,
            },
    {
        let ghost urls = spans_of(self.entities.urls@);
        let ghost hashtags = spans_of(self.entities.hashtags@);
        let ghost mentions = spans_of(self.entities.user_mentions@);
        let ghost start = vacant_slots(self.text@.len());
        proof {
            lemma_embedded_all_concat(start, urls + hashtags + mentions, self.media_spans());
            lemma_embedded_all_concat(start, urls + hashtags, mentions);
            lemma_embedded_all_concat(start, urls, hashtags);
            lemma_embedded_all_keeps_len(start, self.spans());
        }
        let table = vacant_table(self.text.as_str().unicode_len());
        let table = embed_all(table, &self.entities.urls)?;
        let table = embed_all(table, &self.entities.hashtags)?;
        let table = embed_all(table, &self.entities.user_mentions)?;
        if let Some(extended) = &self.extended_entities {
            embed_all(table, &extended.media)
        } else if let Some(media) = &self.entities.media {
            embed_all(table, media)
        } else {
            Ok(table)
        }
    }

    /// Renders the post as HTML: builds the table, composes it with the
    /// text, and unescapes the entities in the result.
    pub fn to_html(&self) -> (r: Result<String, EmbedError>)
        ensures
            match self.html() {
                Ok(html) => r matches Ok(s) && s@ == html,
                Err(e) => r matches Err(x) && x == e,
            },
    {
        let table = self.replacements()?;
        let buf = compose(self.text.as_str(), &table);
        Ok(unescape(buf.as_str()))
    }

    /// Wraps the post into a feed item.
    pub fn to_feed(&self) -> (r: Result<Feed, EmbedError>)
        ensures
            match self.feed() {
                Ok(feed) => r matches Ok(f) && f@ == feed,
                Err(e) => r matches Err(x) && x == e,
            },
    {
        let body = self.to_html()?;
        let mut feedlink = "https://twitter.com/".to_owned();
        feedlink.append(self.user.screen_name.as_str());
        let mut feedtitle = "Twitter - ".to_owned();
        feedtitle.append(self.user.screen_name.as_str());
        let mut link = "https://twitter.com/".to_owned();
        link.append(self.user.screen_name.as_str());
        link.append("/status/");
        link.append(self.id_str.as_str());
        Ok(
            Feed {
                feedlink,
                feedtitle,
                author: self.user.screen_name.clone(),
                title: self.text.clone(),
                body,
                link,
                category: "twitter".to_owned(),
            },
        )
    }
}

/// Where the timeline of `screen_name` is fetched from: its 200 most recent
/// posts.
pub open spec fn user_timeline_url_of(screen_name: Seq<char>) -> Seq<char> {
    "https://api.twitter.com/1.1/statuses/user_timeline.json?screen_name="@ + screen_name
        + "&count=200"@
}

/// The URL of the timeline of `screen_name`.
pub fn user_timeline_url(screen_name: &str) -> (url: String)
    ensures
        url@ == user_timeline_url_of(screen_name@),
{
    let mut url = "https://api.twitter.com/1.1/statuses/user_timeline.json?screen_name=".to_owned();
    url.append(screen_name);
    url.append("&count=200");
    url
}

/// Wraps each post of a timeline into its feed item, in order. The first
/// post that cannot be rendered ends the work with its error, and no item is
/// handed out.
pub fn to_feeds(tweets: &Vec<Tweet>) -> (r: Result<Vec<Feed>, EmbedError>)
    ensures
        match r {
            Ok(feeds) => feeds.len() == tweets.len() && forall|i: int|
                0 <= i < tweets.len() ==> (#[trigger] tweets[i]).feed() == Ok::<
                    FeedView,
                    EmbedError,
                >(feeds[i]@),
            Err(e) => exists|k: int|
                0 <= k < tweets.len() && (#[trigger] tweets[k]).feed() == Err::<
                    FeedView,
                    EmbedError,
                >(e) && forall|j: int| 0 <= j < k ==> (#[trigger] tweets[j]).feed() is Ok,
        },
{
    let mut feeds: Vec<Feed> = Vec::new();
    let mut i: usize = 0;
    while i < tweets.len()
        invariant
            i <= tweets.len(),
            feeds.len() == i,
            forall|j: int|
                0 <= j < i ==> (#[trigger] tweets[j]).feed() == Ok::<FeedView, EmbedError>(
                    feeds[j]@,
                ),
        decreases tweets.len() - i,
    {
        match tweets[i].to_feed() {
            Ok(feed) => {
                feeds.push(feed);
            },
            Err(e) => {
                return Err(e);
            },
        }
        i += 1;
    }
    Ok(feeds)
}

/// A post without annotations renders to its text with the entities
/// unescaped, and so to its text as it is where that holds no ampersand.
pub proof fn lemma_html_without_annotations(tweet: Tweet)
    requires
        tweet.spans().len() == 0,
    ensures
        tweet.html() == Ok::<Seq<char>, EmbedError>(unescaped(tweet.text@)),
        !tweet.text@.contains('&') ==> tweet.html() == Ok::<Seq<char>, EmbedError>(tweet.text@),
{
    lemma_composed_vacant(tweet.text@);
    if !tweet.text@.contains('&') {
        lemma_unescaped_without_ampersand(tweet.text@);
    }
}

/// A post with one annotation, over a range of at least one character that
/// starts inside the text, renders to the text before the range, the
/// annotation's HTML and the text behind the range, with the entities
/// unescaped.
pub proof fn lemma_html_with_one_annotation(tweet: Tweet, a: Span)
    requires
        tweet.spans() == seq![a],
        a.begin < a.end,
        a.begin < tweet.text@.len(),
        a.text.len() > 0,
    ensures
        tweet.html() == Ok::<Seq<char>, EmbedError>(
            unescaped(
                tweet.text@.subrange(0, a.begin as int) + a.text + rest_from(
                    tweet.text@,
                    a.end as int,
                ),
            ),
        ),
{
    let start = vacant_slots(tweet.text@.len());
    lemma_single_span(tweet.text@, a);
    assert(seq![a].skip(1) =~= Seq::<Span>::empty());
    assert(embedded_all(embedded(start, a)->Ok_0, Seq::<Span>::empty()) == embedded(start, a));
}

/// A post with two annotations over the same range of at least one
/// character renders both fragments in place of the range, in the order in
/// which the annotations are merged.
pub proof fn lemma_html_with_same_range(tweet: Tweet, first: Span, second: Span)
    requires
        tweet.spans() == seq![first, second],
        first.begin == second.begin,
        first.end == second.end,
        first.begin < first.end,
        first.begin < tweet.text@.len(),
        first.text.len() > 0,
    ensures
        tweet.html() == Ok::<Seq<char>, EmbedError>(
            unescaped(
                tweet.text@.subrange(0, first.begin as int) + first.text + second.text
                    + rest_from(tweet.text@, first.end as int),
            ),
        ),
{
    lemma_same_range_concatenates(tweet.text@, first, second);
}

/// A post with two annotations that start at the same offset and end at
/// different ones is not rendered: the error names both ranges.
pub proof fn lemma_html_with_conflict(tweet: Tweet, first: Span, second: Span)
    requires
        tweet.spans() == seq![first, second],
        first.begin == second.begin,
        first.end != second.end,
        first.begin < tweet.text@.len(),
        first.text.len() > 0,
    ensures
        tweet.html() == Err::<Seq<char>, EmbedError>(
            EmbedError::Conflict {
                begin: second.begin,
                end: second.end,
                current_begin: first.begin,
                current_end: first.end,
            },
        ),
{
    lemma_other_end_conflicts(vacant_slots(tweet.text@.len()), first, second);
}

/// Two posts with the same text and the same two annotations, over ranges
/// that do not overlap, render alike in whichever order each of them holds
/// the two: the text with both ranges replaced, in the order of the text.
pub proof fn lemma_html_with_two_annotations(tweet: Tweet, other: Tweet, a: Span, b: Span)
    requires
        tweet.spans() == seq![a, b],
        other.spans() == seq![b, a],
        other.text@ == tweet.text@,
        a.begin < a.end <= b.begin < b.end,
        b.begin < tweet.text@.len(),
        a.text.len() > 0,
        b.text.len() > 0,
    ensures
        tweet.html() == Ok::<Seq<char>, EmbedError>(
            unescaped(
                tweet.text@.subrange(0, a.begin as int) + a.text + tweet.text@.subrange(
                    a.end as int,
                    b.begin as int,
                ) + b.text + rest_from(tweet.text@, b.end as int),
            ),
        ),
        other.html() == tweet.html(),
{
    lemma_two_spans(tweet.text@, a, b);
}

/// The annotations of one category all render to something.
pub proof fn lemma_spans_of_render<T: Embeddable>(entities: Seq<T>)
    ensures
        all_render(spans_of(entities)),
{
    assert forall|i: int| 0 <= i < entities.len() implies (#[trigger] spans_of(
        entities,
    )[i]).text.len() > 0 by {
        entities[i].lemma_text_is_not_empty();
    }
}

/// When a post can be rendered: exactly when each of its annotations starts
/// inside the text, and those that start together end together.
pub proof fn lemma_html_is_ok_iff(tweet: Tweet)
    ensures
        all_render(tweet.spans()),
        tweet.html() is Ok <==> (forall|i: int|
            0 <= i < tweet.spans().len() ==> (#[trigger] tweet.spans()[i]).begin
                < tweet.text@.len()) && ends_agree(tweet.spans()),
{
    let spans = tweet.spans();
    lemma_spans_of_render(tweet.entities.urls@);
    lemma_spans_of_render(tweet.entities.hashtags@);
    lemma_spans_of_render(tweet.entities.user_mentions@);
    match tweet.extended_entities {
        Some(extended) => lemma_spans_of_render(extended.media@),
        None => match tweet.entities.media {
            Some(media) => lemma_spans_of_render(media@),
            None => {},
        },
    }
    assert(all_render(spans));
    let start = vacant_slots(tweet.text@.len());
    lemma_merges_iff(start, spans);
    assert(all_fit(start, spans) <==> (forall|i: int|
        0 <= i < spans.len() ==> (#[trigger] spans[i]).begin < tweet.text@.len())) by {
        if all_fit(start, spans) {
            assert forall|i: int| 0 <= i < spans.len() implies (#[trigger] spans[i]).begin
                < tweet.text@.len() by {
                assert(fits(start, spans[i]));
            }
        }
    }
}

/// A post whose annotations cover ranges that lie one behind the other
/// renders to its text with each range replaced by its annotation's HTML
/// and the entities unescaped, in whatever order it holds the annotations.
pub proof fn lemma_html_in_text_order(tweet: Tweet, ordered: Seq<Span>)
    requires
        in_text_order(ordered, 0, tweet.text@.len()),
        distinct_begins(tweet.spans()),
        forall|a: Span| tweet.spans().contains(a) <==> ordered.contains(a),
    ensures
        tweet.html() == Ok::<Seq<char>, EmbedError>(
            unescaped(substituted(tweet.text@, ordered, 0)),
        ),
{
    lemma_composed_in_any_order(tweet.text@, tweet.spans(), ordered);
}

/// Two posts with the same text, of which one holds the annotations of the
/// other rearranged, and no two annotations start at the same offset: both
/// render or neither does, and where they render they render alike. They do
/// render where each annotation starts inside the text.
pub proof fn lemma_html_rearranged(tweet: Tweet, other: Tweet)
    requires
        other.text@ == tweet.text@,
        other.spans().to_multiset() == tweet.spans().to_multiset(),
        distinct_begins(tweet.spans()),
    ensures
        tweet.html() is Ok <==> other.html() is Ok,
        tweet.html() is Ok ==> other.html() == tweet.html(),
        (forall|i: int|
            0 <= i < tweet.spans().len() ==> (#[trigger] tweet.spans()[i]).begin
                < tweet.text@.len()) ==> tweet.html() is Ok,
{
    lemma_merge_rearranged(vacant_slots(tweet.text@.len()), tweet.spans(), other.spans());
    lemma_html_is_ok_iff(tweet);
}

/// Two posts with the same text, of which one holds the annotations of the
/// other rearranged inside each category, and no two annotations start at
/// the same offset: they render as `lemma_html_rearranged` says.
pub proof fn lemma_html_rearranged_in_categories(tweet: Tweet, other: Tweet)
    requires
        other.text@ == tweet.text@,
        spans_of(other.entities.urls@).to_multiset() == spans_of(
            tweet.entities.urls@,
        ).to_multiset(),
        spans_of(other.entities.hashtags@).to_multiset() == spans_of(
            tweet.entities.hashtags@,
        ).to_multiset(),
        spans_of(other.entities.user_mentions@).to_multiset() == spans_of(
            tweet.entities.user_mentions@,
        ).to_multiset(),
        other.media_spans().to_multiset() == tweet.media_spans().to_multiset(),
        distinct_begins(tweet.spans()),
    ensures
        other.spans().to_multiset() == tweet.spans().to_multiset(),
        tweet.html() is Ok <==> other.html() is Ok,
        tweet.html() is Ok ==> other.html() == tweet.html(),
        (forall|i: int|
            0 <= i < tweet.spans().len() ==> (#[trigger] tweet.spans()[i]).begin
                < tweet.text@.len()) ==> tweet.html() is Ok,
{
    lemma_spans_multiset(tweet);
    lemma_spans_multiset(other);
    lemma_html_rearranged(tweet, other);
}

/// The annotations of a post, counted: those of its four categories taken
/// together.
proof fn lemma_spans_multiset(tweet: Tweet)
    ensures
        tweet.spans().to_multiset() == spans_of(tweet.entities.urls@).to_multiset().add(
            spans_of(tweet.entities.hashtags@).to_multiset(),
        ).add(spans_of(tweet.entities.user_mentions@).to_multiset()).add(
            tweet.media_spans().to_multiset(),
        ),
{
    let urls = spans_of(tweet.entities.urls@);
    let hashtags = spans_of(tweet.entities.hashtags@);
    let mentions = spans_of(tweet.entities.user_mentions@);
    lemma_multiset_commutative(urls, hashtags);
    lemma_multiset_commutative(urls + hashtags, mentions);
    lemma_multiset_commutative(urls + hashtags + mentions, tweet.media_spans());
}

/// Where a post has extended media, its basic media count for nothing: the
/// post renders the same whatever the basic set holds.
pub proof fn lemma_extended_media_replace_basic(tweet: Tweet, other: Tweet)
    requires
        tweet.extended_entities is Some,
        other.extended_entities == tweet.extended_entities,
        other.text == tweet.text,
        other.entities.urls == tweet.entities.urls,
        other.entities.hashtags == tweet.entities.hashtags,
        other.entities.user_mentions == tweet.entities.user_mentions,
    ensures
        tweet.media_spans() == spans_of(tweet.extended_entities->Some_0.media@),
        other.spans() == tweet.spans(),
        other.html() == tweet.html(),
{
}

} // verus!
