//! Feed documents: reading a fetched RSS document into items, writing a
//! stored feed back out as RSS, and the listing of stored feeds.
use crate::item::FeedItem;
use crate::store::{FeedStorageInner, StoredFeed};
use crate::text::{join, joined};
use vstd::prelude::*;

verus! {

#[verifier::external_type_specification]
#[verifier::external_body]
pub struct ExRssError(rss::Error);

#[verifier::external_type_specification]
#[verifier::external_body]
pub struct ExUrlParseError(url::ParseError);

/// A fetched feed: its title, its description and its items in document
/// order.
pub struct ParsedFeed {
    pub title: String,
    pub description: String,
    pub items: Vec<FeedItem>,
}

/// Why a fetched document could not be read as a feed.
#[derive(Debug, PartialEq, Eq, Structural)]
pub enum FeedError {
    /// The document is not a well-formed RSS channel.
    Malformed,
    /// The server answered with a status outside 200-299.
    Status,
}

/// The feed that the rss crate reads from an XML document; `None` when it
/// reads none.
pub uninterp spec fn channel_of(xml: Seq<char>) -> Option<ParsedFeed>;

/// The RSS document that the rss crate writes for a channel with this
/// title, description and items.
pub uninterp spec fn rss_text(title: Seq<char>, description: Seq<char>, items: Seq<FeedItem>) -> Seq<char>;

/// Relies on `rss::Channel::read_from`: the channel read from the document,
/// or an error when it is not an RSS channel; the outcome depends on the
/// text alone. Fields are copied one for one (a guid by its value).
#[verifier::external_body]
fn read_channel(xml: &str) -> (r: Result<ParsedFeed, rss::Error>)
    ensures
        r is Ok <==> channel_of(xml@) is Some,
        r matches Ok(f) ==> channel_of(xml@) == Some(f),
{
    let channel = rss::Channel::read_from(xml.as_bytes())?;
    let text = |v: Option<&str>| v.map(String::from);
    let items = channel.items().iter().map(|i| FeedItem {
        title: text(i.title()),
        link: text(i.link()),
        description: text(i.description()),
        guid: i.guid().map(|g| g.value().to_string()),
        pub_date: text(i.pub_date()),
        content: text(i.content()),
        source: Some(std::sync::Arc::new(i.clone())),
    }).collect();
    Ok(ParsedFeed { title: channel.title().to_string(), description: channel.description().to_string(), items })
}

/// Relies on `rss::ChannelBuilder` and `Channel`'s `Display`: the XML of a
/// channel with this title, description and items; an item read from a
/// document is written as that entry, any other from its plain fields (a
/// guid as not a permalink). The text depends on these alone.
#[verifier::external_body]
fn write_channel(title: &str, description: &str, items: &Vec<FeedItem>) -> (r: String)
    ensures
        r@ == rss_text(title@, description@, items@),
{
    let items: Vec<rss::Item> = items.iter().map(|i| i.source.as_deref().cloned().unwrap_or_else(|| rss::Item {
        title: i.title.clone(),
        link: i.link.clone(),
        description: i.description.clone(),
        guid: i.guid.clone().map(|value| rss::Guid { value, permalink: false }),
        pub_date: i.pub_date.clone(),
        content: i.content.clone(),
        ..Default::default()
    })).collect();
    rss::ChannelBuilder::default().title(title).description(description).items(items).build().to_string()
}

/// Reads a fetched RSS document.
pub fn parse_feed(xml: &str) -> (r: Result<ParsedFeed, FeedError>)
    ensures
        match channel_of(xml@) {
            Some(f) => r == Ok::<ParsedFeed, FeedError>(f),
            None => r == Err::<ParsedFeed, FeedError>(FeedError::Malformed),
        },
{
    match read_channel(xml) {
        Ok(feed) => Ok(feed),
        Err(_) => Err(FeedError::Malformed),
    }
}

/// Whether an HTTP status reports success (200-299).
pub open spec fn is_success(status: u16) -> bool {
    200 <= status <= 299
}

/// Reads the answer to a feed request: a status outside 200-299 is a
/// failure whatever the body holds; otherwise the body is read as a feed.
pub fn read_response(status: u16, body: &str) -> (r: Result<ParsedFeed, FeedError>)
    ensures
        !is_success(status) ==> r == Err::<ParsedFeed, FeedError>(FeedError::Status),
        is_success(status) ==> match channel_of(body@) {
            Some(f) => r == Ok::<ParsedFeed, FeedError>(f),
            None => r == Err::<ParsedFeed, FeedError>(FeedError::Malformed),
        },
{
    if status < 200 || status > 299 {
        return Err(FeedError::Status);
    }
    parse_feed(body)
}

/// The RSS document of a stored feed.
pub fn render_feed(feed: &StoredFeed) -> (r: String)
    ensures
        r@ == rss_text(feed.title@, feed.description@, feed.items@),
{
    write_channel(feed.title.as_str(), feed.description.as_str(), &feed.items)
}

/// The RSS document of the stored feed `name`, or `None` when no such feed
/// is stored.
pub fn serve_feed(store: &FeedStorageInner, name: &str) -> (r: Option<String>)
    requires
        store.wf(),
    ensures
        match r {
            Some(doc) => store.has_feed(name@) && doc@ == rss_text(
                store.title(name@),
                store.description(name@),
                store.items(name@),
            ),
            None => !store.has_feed(name@),
        },
{
    match store.read(name) {
        Some(feed) => Some(render_feed(&feed)),
        None => None,
    }
}

/// The scheme and authority of a URL as the url crate parses it; `None`
/// when it does not parse.
pub uninterp spec fn url_parts(s: Seq<char>) -> Option<(Seq<char>, Seq<char>)>;

/// The URL that the url crate makes by parsing `base` and joining `path`
/// to it; `None` when either step fails.
pub uninterp spec fn url_joined(base: Seq<char>, path: Seq<char>) -> Option<Seq<char>>;

/// Relies on `url::Url::parse`, `Url::scheme` and `Url::authority`: the
/// parts depend on the text alone, and parsing fails exactly when the text
/// is not a URL.
#[verifier::external_body]
fn scheme_and_authority(s: &str) -> (r: Result<(String, String), url::ParseError>)
    ensures
        r is Ok <==> url_parts(s@) is Some,
        r matches Ok(p) ==> url_parts(s@) == Some((p.0@, p.1@)),
{
    let u = url::Url::parse(s)?;
    Ok((u.scheme().to_string(), u.authority().to_string()))
}

/// Relies on `url::Url::parse` and `Url::join`: the joined URL depends on
/// the two texts alone.
#[verifier::external_body]
fn join_url(base: &str, path: &str) -> (r: Result<String, url::ParseError>)
    ensures
        r is Ok <==> url_joined(base@, path@) is Some,
        r matches Ok(u) ==> url_joined(base@, path@) == Some(u@),
{
    Ok(url::Url::parse(base)?.join(path)?.as_str().to_string())
}

/// Where a feed's site keeps its icon: "/favicon.ico" at the root (scheme
/// and authority) of the feed's URL.
pub open spec fn favicon_url_of(feed_url: Seq<char>) -> Option<Seq<char>> {
    match url_parts(feed_url) {
        None => None,
        Some(parts) => url_joined(parts.0 + "://"@ + parts.1, "/favicon.ico"@),
    }
}

/// The URL of the icon of the site that serves `feed_url`, or `None` when
/// the URL does not parse.
pub fn favicon_url(feed_url: &str) -> (r: Option<String>)
    ensures
        match favicon_url_of(feed_url@) {
            None => r is None,
            Some(u) => r matches Some(x) && x@ == u,
        },
{
    let parts = match scheme_and_authority(feed_url) {
        Ok(parts) => parts,
        Err(_) => {
            return None;
        },
    };
    let mut root = parts.0;
    root.append("://");
    root.append(parts.1.as_str());
    match join_url(root.as_str(), "/favicon.ico") {
        Ok(u) => Some(u),
        Err(_) => None,
    }
}

/// The listing of stored feeds: "No feeds available yet" when there is
/// none, else "Available feeds:" followed by one line "- /<name>" per feed.
pub open spec fn listing_text(names: Seq<Seq<char>>) -> Seq<char> {
    if names.len() == 0 {
        "No feeds available yet"@
    } else {
        "Available feeds:\n"@ + joined(names.map_values(|n: Seq<char>| "- /"@ + n), "\n"@)
    }
}

/// The listing of the stored feeds, in the order they were added.
pub fn list_feeds(store: &FeedStorageInner) -> (r: String)
    requires
        store.wf(),
    ensures
        r@ == listing_text(store.names()),
{
    proof {
        reveal_strlit("No feeds available yet");
        reveal_strlit("Available feeds:\n");
        reveal_strlit("- /");
    }
    let names = store.list_names();
    if names.len() == 0 {
        return String::from_str("No feeds available yet");
    }
    let ghost want = store.names().map_values(|n: Seq<char>| "- /"@ + n);
    let mut lines: Vec<String> = Vec::new();
    let mut i: usize = 0;
    while i < names.len()
        invariant
            i <= names.len(),
            names@.len() == store.names().len(),
            forall|j: int| 0 <= j < names@.len() ==> #[trigger] names@[j].0@ == store.names()[j],
            want == store.names().map_values(|n: Seq<char>| "- /"@ + n),
            lines@.len() == i,
            forall|j: int| 0 <= j < i ==> #[trigger] lines@[j]@ == want[j],
        decreases names.len() - i,
    {
        let mut line = String::from_str("- /");
        line.append(names[i].0.as_str());
        lines.push(line);
        i += 1;
    }
    assert(lines@.map_values(|l: String| l@) =~= want);
    let mut r = String::from_str("Available feeds:\n");
    let body = join(&lines, "\n");
    r.append(body.as_str());
    r
}

} // verus!
