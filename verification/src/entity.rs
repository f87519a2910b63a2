//! The annotations that a post carries: links, hashtags, mentions and media.
//! Each names a range of the post's text and says which HTML replaces it.
//!
//! The values of an annotation go into its HTML as they are. Nothing in them
//! is escaped or checked: they are taken to be as clean as the timeline
//! delivers them.

use vstd::prelude::*;

verus! {

/// What an annotation asks for: the characters from `begin` up to, but not
/// including, `end` give way to `text`.
pub struct Span {
    pub begin: usize,
    pub end: usize,
    pub text: Seq<char>,
}

/// An annotated range of a post's text, with the HTML that takes its place.
pub trait Embeddable {
    /// The range and the HTML fragment, as one value.
    spec fn span(&self) -> Span;

    /// Offset of the first character of the range.
    fn begin(&self) -> (b: usize)
        ensures
            b == self.span().begin,
    ;

    /// Offset just behind the last character of the range.
    fn end(&self) -> (e: usize)
        ensures
            e == self.span().end,
    ;

    /// The HTML fragment that replaces the range.
    fn text(&self) -> (t: String)
        ensures
            t@ == self.span().text,
    ;

    /// Every annotation renders to at least one character.
    proof fn lemma_text_is_not_empty(&self)
        ensures
            self.span().text.len() > 0,
    ;
}

/// A link: an anchor around the target, which is shown as the link's text.
pub open spec fn link_html(url: Seq<char>) -> Seq<char> {
    "<a href=\""@ + url + "\">"@ + url + "</a>"@
}

/// A hashtag: an anchor to the search for the tag, shown as `#` and the tag.
pub open spec fn hashtag_html(tag: Seq<char>) -> Seq<char> {
    "<a href=\"https://twitter.com/search?q=#"@ + tag + "&src=hash\">#"@ + tag + "</a>"@
}

/// A mention: an anchor to the profile, shown as `@` and the handle.
pub open spec fn mention_html(handle: Seq<char>) -> Seq<char> {
    "<a href=\"https://twitter.com/"@ + handle + "\">@"@ + handle + "</a>"@
}

/// Attached media: an anchor around an image, both pointing at the media.
pub open spec fn media_html(url: Seq<char>) -> Seq<char> {
    "<a href=\""@ + url + "\"><img alt=\""@ + url + "\" src=\""@ + url + "\"/></a>"@
}

/// A link in the text, with the address that it stands for.
#[derive(Debug)]
pub struct Url {
    pub expanded_url: String,
    pub indices: (usize, usize),
}

/// A hashtag in the text; `text` is the tag without its `#`.
#[derive(Debug)]
pub struct Hashtag {
    pub text: String,
    pub indices: (usize, usize),
}

/// A mention of a user in the text; `screen_name` is the handle without
/// its `@`.
#[derive(Debug)]
pub struct UserMention {
    pub screen_name: String,
    pub indices: (usize, usize),
}

/// Media attached to the post, shown in the text as a short link.
#[derive(Debug)]
pub struct Media {
    pub media_url_https: String,
    pub indices: (usize, usize),
}

impl Embeddable for Url {
    open spec fn span(&self) -> Span {
        Span { begin: self.indices.0, end: self.indices.1, text: link_html(self.expanded_url@) }
    }

    fn begin(&self) -> usize {
        self.indices.0
    }

    fn end(&self) -> usize {
        self.indices.1
    }

    fn text(&self) -> String {
        let mut t = "<a href=\"".to_owned();
        t.append(self.expanded_url.as_str());
        t.append("\">");
        t.append(self.expanded_url.as_str());
        t.append("</a>");
        t
    }

    proof fn lemma_text_is_not_empty(&self) {
        reveal_strlit("</a>");
    }
}

impl Embeddable for Hashtag {
    open spec fn span(&self) -> Span {
        Span { begin: self.indices.0, end: self.indices.1, text: hashtag_html(self.text@) }
    }

    fn begin(&self) -> usize {
        self.indices.0
    }

    fn end(&self) -> usize {
        self.indices.1
    }

    fn text(&self) -> String {
        let mut t = "<a href=\"https://twitter.com/search?q=#".to_owned();
        t.append(self.text.as_str());
        t.append("&src=hash\">#");
        t.append(self.text.as_str());
        t.append("</a>");
        t
    }

    proof fn lemma_text_is_not_empty(&self) {
        reveal_strlit("</a>");
    }
}

impl Embeddable for UserMention {
    open spec fn span(&self) -> Span {
        Span { begin: self.indices.0, end: self.indices.1, text: mention_html(self.screen_name@) }
    }

    fn begin(&self) -> usize {
        self.indices.0
    }

    fn end(&self) -> usize {
        self.indices.1
    }

    fn text(&self) -> String {
        let mut t = "<a href=\"https://twitter.com/".to_owned();
        t.append(self.screen_name.as_str());
        t.append("\">@");
        t.append(self.screen_name.as_str());
        t.append("</a>");
        t
    }

    proof fn lemma_text_is_not_empty(&self) {
        reveal_strlit("</a>");
    }
}

impl Embeddable for Media {
    open spec fn span(&self) -> Span {
        Span { begin: self.indices.0, end: self.indices.1, text: media_html(self.media_url_https@) }
    }

    fn begin(&self) -> usize {
        self.indices.0
    }

    fn end(&self) -> usize {
        self.indices.1
    }

    fn text(&self) -> String {
        let mut t = "<a href=\"".to_owned();
        t.append(self.media_url_https.as_str());
        t.append("\"><img alt=\"");
        t.append(self.media_url_https.as_str());
        t.append("\" src=\"");
        t.append(self.media_url_https.as_str());
        t.append("\"/></a>");
        t
    }

    proof fn lemma_text_is_not_empty(&self) {
        reveal_strlit("\"/></a>");
    }
}

} // verus!
