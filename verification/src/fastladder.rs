//! Requests to the feed reader: where the update goes and what its body is.

use crate::text::chars_of;
use vstd::prelude::*;

verus! {

/// The error of the URL parser. Nothing is read from it.
#[verifier::external_type_specification]
#[verifier::external_body]
pub struct ExParseError(url::ParseError);

/// The serialization of the URL that `input` parses to as an absolute URL,
/// if it does.
pub uninterp spec fn parsed_url(input: Seq<char>) -> Option<Seq<char>>;

/// The serialization of the URL that `input` parses to relative to the
/// absolute URL `base`, if `base` is one and `input` can be resolved
/// against it.
pub uninterp spec fn joined_url(base: Seq<char>, input: Seq<char>) -> Option<Seq<char>>;

/// Two name/value pairs in `application/x-www-form-urlencoded` syntax.
pub uninterp spec fn form_urlencoded(
    first_name: Seq<char>,
    first_value: Seq<char>,
    second_name: Seq<char>,
    second_value: Seq<char>,
) -> Seq<char>;

/// The longest host that the parser takes where the host is written in
/// ASCII and without escapes, in characters.
///
/// The parser turns each label of a host into Punycode where the label is
/// not ASCII. The encoder adds up, in 32 bits and unguarded, at most the
/// largest code point times the length of the label and twice that length
/// on top: that stays below 2^32 up to 3855 characters. A host in ASCII
/// reaches the encoder only with what a label in Punycode decodes to, which
/// is no longer than the label.
pub const MAX_HOST_LEN: usize = 3855;

/// The longest host that the parser takes where the host holds an escape or
/// a character outside ASCII, in characters.
///
/// Before a label reaches the encoder, the parser maps each character of
/// the host to at most 18 characters and normalizes the result, which makes
/// at most four characters of one: a host of 53 characters stays below
/// `MAX_HOST_LEN`.
pub const MAX_MAPPED_HOST_LEN: usize = 53;

/// Whether the character ends the part of a URL that holds the host.
pub open spec fn is_break(c: char) -> bool {
    c == '/' || c == '\\' || c == '?' || c == '#'
}

/// Whether the character belongs to the slashes before the host: a slash
/// of either kind, or a tab or line break, which the parser passes over.
pub open spec fn is_passed(c: char) -> bool {
    c == '/' || c == '\\' || c == '\t' || c == '\n' || c == '\r'
}

/// Whether the character is of ASCII and starts no escape.
pub open spec fn is_quiet(c: char) -> bool {
    c <= '\u{7f}' && c != '%'
}

/// The first offset from `i` on at which the slashes before a host end.
pub open spec fn after_slashes(s: Seq<char>, i: int) -> int
    decreases s.len() - i,
{
    if 0 <= i < s.len() && is_passed(s[i]) {
        after_slashes(s, i + 1)
    } else {
        i
    }
}

/// The first offset from `i` on at which the part that holds a host ends.
pub open spec fn next_break(s: Seq<char>, i: int) -> int
    decreases s.len() - i,
{
    if 0 <= i < s.len() && !is_break(s[i]) {
        next_break(s, i + 1)
    } else {
        i
    }
}

/// The first offset from `i` on at which a colon stands, and the length of
/// the text where none does.
pub open spec fn next_colon(s: Seq<char>, i: int) -> int
    decreases s.len() - i,
{
    if 0 <= i < s.len() && s[i] != ':' {
        next_colon(s, i + 1)
    } else {
        i
    }
}

/// Whether every character from `from` up to `to` is quiet.
pub open spec fn quiet_between(s: Seq<char>, from: int, to: int) -> bool {
    forall|k: int| from <= k < to ==> is_quiet(#[trigger] s[k])
}

/// Whether a host that starts at `from` is one that the parser takes. As
/// far as the host can reach, which is up to the next break, the text is
/// short, or quiet and not too long. What stands before the host in that
/// stretch, such as a user name, counts as if it were host.
pub open spec fn host_fits(s: Seq<char>, from: int) -> bool {
    let to = next_break(s, from);
    to - from <= MAX_MAPPED_HOST_LEN || (to - from <= MAX_HOST_LEN && quiet_between(s, from, to))
}

/// Whether the parser takes the text as an absolute URL. The host of one
/// stands behind the slashes that follow the colon of the scheme, which is
/// the first colon of the text: what stands there has to fit. A text
/// without a colon has no scheme, and the parser turns it down before it
/// looks for a host.
pub open spec fn parser_takes(s: Seq<char>) -> bool {
    host_fits(s, after_slashes(s, next_colon(s, 0) + 1))
}

fn after_slashes_in(v: &Vec<char>, i: usize) -> (j: usize)
    requires
        i <= v.len(),
    ensures
        j == after_slashes(v@, i as int),
        i <= j <= v.len(),
{
    let mut j: usize = i;
    while j < v.len() && (v[j] == '/' || v[j] == '\\' || v[j] == '\t' || v[j] == '\n' || v[j]
        == '\r')
        invariant
            i <= j <= v.len(),
            after_slashes(v@, j as int) == after_slashes(v@, i as int),
        decreases v.len() - j,
    {
        j += 1;
    }
    j
}

fn next_break_in(v: &Vec<char>, i: usize) -> (j: usize)
    requires
        i <= v.len(),
    ensures
        j == next_break(v@, i as int),
        i <= j <= v.len(),
{
    let mut j: usize = i;
    while j < v.len() && !(v[j] == '/' || v[j] == '\\' || v[j] == '?' || v[j] == '#')
        invariant
            i <= j <= v.len(),
            next_break(v@, j as int) == next_break(v@, i as int),
        decreases v.len() - j,
    {
        j += 1;
    }
    j
}

fn next_colon_in(v: &Vec<char>, i: usize) -> (j: usize)
    requires
        i <= v.len(),
    ensures
        j == next_colon(v@, i as int),
        i <= j <= v.len(),
{
    let mut j: usize = i;
    while j < v.len() && v[j] != ':'
        invariant
            i <= j <= v.len(),
            next_colon(v@, j as int) == next_colon(v@, i as int),
        decreases v.len() - j,
    {
        j += 1;
    }
    j
}

fn is_quiet_between(v: &Vec<char>, from: usize, to: usize) -> (b: bool)
    requires
        from <= to <= v.len(),
    ensures
        b == quiet_between(v@, from as int, to as int),
{
    let mut k: usize = from;
    while k < to
        invariant
            from <= k <= to <= v.len(),
            quiet_between(v@, from as int, k as int),
        decreases to - k,
    {
        if !(v[k] <= '\u{7f}' && v[k] != '%') {
            return false;
        }
        k += 1;
    }
    true
}

fn host_fits_in(v: &Vec<char>, from: usize) -> (b: bool)
    requires
        from <= v.len(),
    ensures
        b == host_fits(v@, from as int),
{
    let to = next_break_in(v, from);
    to - from <= MAX_MAPPED_HOST_LEN || (to - from <= MAX_HOST_LEN && is_quiet_between(
        v,
        from,
        to,
    ))
}

/// Tests whether the parser takes the text.
pub fn is_taken_by_parser(s: &str) -> (b: bool)
    ensures
        b == parser_takes(s@),
{
    let v = chars_of(s);
    let colon = next_colon_in(&v, 0);
    if colon < v.len() {
        host_fits_in(&v, after_slashes_in(&v, colon + 1))
    } else {
        true
    }
}

/// Calls `url::Url::parse`, which reads an absolute URL from a string, and
/// hands out the URL's serialization (`Url::into_string`) or the parser's
/// error. Not proved: that the outcome depends on the input alone, which is
/// all that the contract says by giving it the name `parsed_url`.
///
/// Left out are the texts whose host could take the Punycode encoder past
/// 32 bits, where the parser stops the program if its arithmetic is
/// checked: see `MAX_HOST_LEN` and `MAX_MAPPED_HOST_LEN`.
#[verifier::external_body]
fn parse_url(input: &str) -> (r: Result<String, url::ParseError>)
    requires
        parser_takes(input@),
    ensures
        match r {
            Ok(url) => parsed_url(input@) == Some(url@),
            Err(_) => parsed_url(input@) is None,
        },
{
    match url::Url::parse(input) {
        Ok(url) => Ok(url.into_string()),
        Err(e) => Err(e),
    }
}

/// Calls `url::Url::join` on the URL that `url::Url::parse` reads from
/// `base`: `input` is parsed with that URL as its base. Hands out the
/// serialization of the result, or the parser's error where either step
/// fails. Not proved: that the outcome depends on the two strings alone,
/// which is all that the contract says by giving it the name `joined_url`.
///
/// The base is a text that the parser takes, as at `parse_url`. The input
/// is a path: it begins with one slash, and brings neither a host nor a
/// scheme. Left out with that are the inputs without a slash at their
/// start, on which the parser asserts what does not hold of every `file`
/// URL with a drive letter.
#[verifier::external_body]
fn join_url(base: &str, input: &str) -> (r: Result<String, url::ParseError>)
    requires
        parser_takes(base@),
        input@.len() > 0,
        input@[0] == '/',
        input@.len() == 1 || !is_passed(input@[1]),
    ensures
        match r {
            Ok(url) => joined_url(base@, input@) == Some(url@),
            Err(_) => joined_url(base@, input@) is None,
        },
{
    match url::Url::parse(base) {
        Ok(base) => match base.join(input) {
            Ok(url) => Ok(url.into_string()),
            Err(e) => Err(e),
        },
        Err(e) => Err(e),
    }
}

/// Calls `url::form_urlencoded::Serializer`: `new` on an empty string,
/// `append_pair` for each of the two pairs, and `finish`, which hands the
/// string out. Not proved: that the result depends on the four strings
/// alone, which is all that the contract says by giving it the name
/// `form_urlencoded`.
#[verifier::external_body]
fn form_urlencode(first_name: &str, first_value: &str, second_name: &str, second_value: &str) -> (r:
    String)
    ensures
        r@ == form_urlencoded(first_name@, first_value@, second_name@, second_value@),
{
    url::form_urlencoded::Serializer::new(String::new())
        .append_pair(first_name, first_value)
        .append_pair(second_name, second_value)
        .finish()
}

/// The feed reader: the base of its URLs and the key that it asks for.
#[derive(Debug)]
pub struct Fastladder {
    pub base_url: String,
    pub api_key: String,
}

/// One request to the update endpoint: where to post, and what.
#[derive(Debug)]
pub struct UpdateRequest {
    pub url: String,
    pub body: String,
}

/// The URL that the parser wrote, if it wrote one; its error is dropped.
fn written(parsed: Result<String, url::ParseError>) -> (r: Option<String>)
    ensures
        r == match parsed {
            Ok(url) => Some(url),
            Err(_) => None::<String>,
        },
{
    match parsed {
        Ok(url) => Some(url),
        Err(_) => None,
    }
}

/// The base URL that a feed reader keeps for the text `input`: what the
/// parser writes for it, where the parser takes the text.
pub open spec fn base_url_of(input: Seq<char>) -> Option<Seq<char>> {
    if parser_takes(input) {
        parsed_url(input)
    } else {
        None
    }
}

/// Where the updates of a feed reader at `base` go: to `/rpc/update_feeds`
/// under the base, where the parser takes the base.
pub open spec fn update_feeds_url_of(base: Seq<char>) -> Option<Seq<char>> {
    if parser_takes(base) {
        joined_url(base, "/rpc/update_feeds"@)
    } else {
        None
    }
}

impl Fastladder {
    /// A feed reader at `base_url`, which has to be an absolute URL; it is
    /// kept in the form in which the parser writes it. There is none where
    /// the text is no URL, or has a host too long for the parser.
    pub fn new(base_url: &str, api_key: String) -> (r: Option<Fastladder>)
        ensures
            match base_url_of(base_url@) {
                Some(url) => r matches Some(fastladder) && fastladder.base_url@ == url
                    && fastladder.api_key == api_key,
                None => r is None,
            },
    {
        if !is_taken_by_parser(base_url) {
            return None;
        }
        Fastladder::at(written(parse_url(base_url)), api_key)
    }

    /// A feed reader at the base URL that the parser wrote, and none where
    /// it wrote none.
    pub fn at(base_url: Option<String>, api_key: String) -> (r: Option<Fastladder>)
        ensures
            match base_url {
                Some(url) => r matches Some(fastladder) && fastladder.base_url == url
                    && fastladder.api_key == api_key,
                None => r is None,
            },
    {
        match base_url {
            Some(url) => Some(Fastladder { base_url: url, api_key }),
            None => None,
        }
    }

    /// The request that posts `feeds_json`, the feed items encoded as a JSON
    /// array: it goes to `/rpc/update_feeds` under the base URL, and its body
    /// is the form with the fields `api_key` and `feeds`. There is no
    /// request where the base URL is none that the parser takes and reads,
    /// or none that can be a base.
    pub fn update_feeds_request(&self, feeds_json: &str) -> (r: Option<UpdateRequest>)
        ensures
            match update_feeds_url_of(self.base_url@) {
                Some(url) => r matches Some(request) && request.url@ == url && request.body@
                    == form_urlencoded("api_key"@, self.api_key@, "feeds"@, feeds_json@),
                None => r is None,
            },
    {
        if !is_taken_by_parser(self.base_url.as_str()) {
            return None;
        }
        proof {
            reveal_strlit("/rpc/update_feeds");
        }
        let url = written(join_url(self.base_url.as_str(), "/rpc/update_feeds"));
        let body = form_urlencode("api_key", self.api_key.as_str(), "feeds", feeds_json);
        UpdateRequest::to(url, body)
    }
}

impl UpdateRequest {
    /// The request with this body to the URL that the parser wrote, and none
    /// where it wrote none.
    pub fn to(url: Option<String>, body: String) -> (r: Option<UpdateRequest>)
        ensures
            match url {
                Some(url) => r matches Some(request) && request.url == url && request.body == body,
                None => r is None,
            },
    {
        match url {
            Some(url) => Some(UpdateRequest { url, body }),
            None => None,
        }
    }
}

} // verus!
