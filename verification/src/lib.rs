//! Turns a timeline of posts into feed items: the text of each post and its
//! annotated ranges become inline HTML, and the result is wrapped into a
//! record for a feed reader's update endpoint.
//!
//! - [`entity`]: the annotations and the HTML fragment of each.
//! - [`embed`]: the table of render slots and how annotations are merged
//!   into it.
//! - [`compose`]: how the text and its table become one string.
//! - [`text`]: the unescaping of entities, and other work on characters.
//! - [`tweet`]: posts, feed items, and the way from one to the other.
//! - [`fastladder`]: the request that hands feed items to the feed reader.

pub mod compose;
pub mod embed;
pub mod entity;
pub mod fastladder;
pub mod text;
pub mod tweet;
