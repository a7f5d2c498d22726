//! Reading raw feed bytes into the normalized [`NewsFeed`] shape. The bytes are
//! first read as RSS 2.0; exactly when the document does not begin with a
//! recognizable RSS root tag, the same bytes are reinterpreted as Atom. Any
//! other parse failure is terminal for the fetch.

use vstd::prelude::*;

use crate::feed::NewsFeed;
use crate::feed::FeedView;
use crate::feed::Item;

verus! {

/// A fetch failure: the transport could not deliver the bytes, or the bytes
/// parse as neither supported wire format.
#[derive(Debug)]
pub enum FetchError {
    Network(String),
    Parse(String),
}

/// What reading bytes as RSS 2.0 produced.
pub enum RssOutcome {
    /// The normalized feed, its validation verdict included.
    Parsed(NewsFeed),
    /// The document does not begin with an RSS root tag: the cue to
    /// reinterpret the bytes as Atom.
    NotRss,
    /// Any other parse failure, with its message: terminal.
    Failed(String),
}

/// The mathematical view of an [`RssOutcome`].
pub ghost enum RssOutcomeView {
    Parsed(FeedView),
    NotRss,
    Failed(Seq<char>),
}

impl View for RssOutcome {
    type V = RssOutcomeView;

    open spec fn view(&self) -> RssOutcomeView {
        match self {
            RssOutcome::Parsed(f) => RssOutcomeView::Parsed(f@),
            RssOutcome::NotRss => RssOutcomeView::NotRss,
            RssOutcome::Failed(m) => RssOutcomeView::Failed(m@),
        }
    }
}

/// What reading the bytes as RSS 2.0 yields: a function of the bytes alone.
pub uninterp spec fn spec_rss_outcome(bytes: Seq<u8>) -> RssOutcomeView;

/// What reinterpreting the bytes as Atom yields: a function of the bytes
/// alone.
pub uninterp spec fn spec_atom_outcome(bytes: Seq<u8>) -> Result<FeedView, Seq<char>>;

/// Relies on `rss::Channel` accessors (`title`, `link`, `ttl`, `items` and
/// the item accessors) and on `rss::validation::Validate::validate`, whose
/// verdict becomes the feed's `valid` flag.
#[verifier::external_body]
fn channel_feed(c: &rss::Channel) -> NewsFeed {
    NewsFeed {
        title: c.title().to_string(),
        link: c.link().to_string(),
        ttl_hint: c.ttl().map(str::to_string),
        valid: rss::validation::Validate::validate(c).is_ok(),
        items: c.items().iter().map(|i| Item {
            title: i.title().map(str::to_string),
            link: i.link().map(str::to_string),
            description: i.description().map(str::to_string),
            content: i.content().map(str::to_string),
        }).collect(),
    }
}

/// Relies on `rss::Channel::read_from`: parsing is deterministic in the
/// bytes, and `rss::Error::InvalidStartTag` is exactly the "not an RSS
/// document" case.
#[verifier::external_body]
fn read_rss(bytes: &[u8]) -> (r: RssOutcome)
    ensures
        r@ == spec_rss_outcome(bytes@),
{
    match rss::Channel::read_from(bytes) {
        Ok(c) => RssOutcome::Parsed(channel_feed(&c)),
        Err(rss::Error::InvalidStartTag) => RssOutcome::NotRss,
        Err(e) => RssOutcome::Failed(e.to_string()),
    }
}

/// Relies on `atom_syndication` accessors (`title`, `links`, `entries`,
/// `content`) to map an Atom feed onto the RSS channel shape: feed title to
/// title, first link's address to link, per entry the title, the first
/// link, and the body content; the description stays empty.
#[verifier::external_body]
fn atom_channel(f: &atom_syndication::Feed) -> rss::Channel {
    let mut c = rss::Channel::default();
    c.set_title(f.title().as_str());
    c.set_link(f.links().first().map(|l| l.href()).unwrap_or(""));
    c.set_items(f.entries().iter().map(|e| {
        let mut item = rss::Item::default();
        item.set_title(e.title().as_str().to_string());
        item.set_link(e.links().first().map(|l| l.href().to_string()));
        item.set_content(e.content().map(|ct| ct.value().unwrap_or_default().to_string()));
        item
    }).collect::<Vec<rss::Item>>());
    c
}

/// Relies on `atom_syndication::Feed::read_from`: parsing is deterministic
/// in the bytes.
#[verifier::external_body]
fn read_atom(bytes: &[u8]) -> (r: Result<NewsFeed, String>)
    ensures
        (match r {
            Ok(f) => spec_atom_outcome(bytes@) == Ok::<FeedView, Seq<char>>(f@),
            Err(m) => spec_atom_outcome(bytes@) == Err::<FeedView, Seq<char>>(m@),
        }),
{
    match atom_syndication::Feed::read_from(bytes) {
        Ok(f) => Ok(channel_feed(&atom_channel(&f))),
        Err(e) => Err(e.to_string()),
    }
}

/// The normalization of raw bytes: the RSS reading when it parses or
/// terminally fails, the Atom reading when the bytes are no RSS document.
pub open spec fn spec_parse_feed(bytes: Seq<u8>) -> Result<FeedView, Seq<char>> {
    match spec_rss_outcome(bytes) {
        RssOutcomeView::Parsed(f) => Ok(f),
        RssOutcomeView::Failed(m) => Err(m),
        RssOutcomeView::NotRss => spec_atom_outcome(bytes),
    }
}

/// Normalizes fetched bytes into a [`NewsFeed`], trying RSS 2.0 first and
/// falling back to Atom exactly when the document does not begin with an
/// RSS root tag.
pub fn parse_feed(bytes: &[u8]) -> (r: Result<NewsFeed, FetchError>)
    ensures
        (match r {
            Ok(f) => spec_parse_feed(bytes@) == Ok::<FeedView, Seq<char>>(f@),
            Err(e) => e matches FetchError::Parse(m) && spec_parse_feed(bytes@) == Err::<
                FeedView,
                Seq<char>,
            >(m@),
        }),
{
    match read_rss(bytes) {
        RssOutcome::Parsed(f) => Ok(f),
        RssOutcome::NotRss => match read_atom(bytes) {
            Ok(f) => Ok(f),
            Err(m) => Err(FetchError::Parse(m)),
        },
        RssOutcome::Failed(m) => Err(FetchError::Parse(m)),
    }
}

/// What URL parsing yields: the normalized text of a well-formed URL, a
/// function of the input text alone.
pub uninterp spec fn spec_url_normalized(s: Seq<char>) -> Option<Seq<char>>;

/// Relies on `url::Url::parse` and `url::Url::as_str`: parsing accepts
/// exactly the well-formed URLs and is deterministic in the text, and
/// `as_str` gives the parsed URL's normalized text.
#[verifier::external_body]
pub(crate) fn url_normalized(s: &str) -> (r: Option<String>)
    ensures
        (match r {
            Some(u) => spec_url_normalized(s@) == Some(u@),
            None => spec_url_normalized(s@) == None::<Seq<char>>,
        }),
{
    match url::Url::parse(s) {
        Ok(u) => Some(u.as_str().to_string()),
        Err(_) => None,
    }
}

} // verus!
