//! Deterministic serialization of decoded bookmarks into an RSS 2.0
//! document, escaping all untrusted text fields.
//!
//! Failure before completion discards everything built so far: a bad
//! timestamp fails the entire render and no partial feed is returned.

use vstd::prelude::*;
use vstd::string::StringExecFns;
use crate::errors::FeedError;
use crate::escape::escape_spec;
use crate::escape::escape_for_cdata;

verus! {

/// Preview card attached to a bookmark; both fields default to the empty
/// string when absent from the upstream payload.
#[derive(Debug, PartialEq, Eq)]
pub struct Card {
    pub title: String,
    pub url: String,
}

/// Author account of a bookmark; the username defaults to the empty string.
#[derive(Debug, PartialEq, Eq)]
pub struct Account {
    pub username: String,
}

/// One decoded bookmark record. `url`, `created_at` and `content` are
/// required; `card` and `account` are optional.
#[derive(Debug, PartialEq, Eq)]
pub struct Bookmark {
    pub url: String,
    pub created_at: String,
    pub content: String,
    pub card: Option<Card>,
    pub account: Option<Account>,
}

pub struct CardModel {
    pub title: Seq<char>,
    pub url: Seq<char>,
}

pub struct AccountModel {
    pub username: Seq<char>,
}

pub struct BookmarkModel {
    pub url: Seq<char>,
    pub created_at: Seq<char>,
    pub content: Seq<char>,
    pub card: Option<CardModel>,
    pub account: Option<AccountModel>,
}

impl View for Card {
    type V = CardModel;

    open spec fn view(&self) -> CardModel {
        CardModel { title: self.title@, url: self.url@ }
    }
}

impl View for Account {
    type V = AccountModel;

    open spec fn view(&self) -> AccountModel {
        AccountModel { username: self.username@ }
    }
}

impl View for Bookmark {
    type V = BookmarkModel;

    open spec fn view(&self) -> BookmarkModel {
        BookmarkModel {
            url: self.url@,
            created_at: self.created_at@,
            content: self.content@,
            card: match self.card {
                Some(c) => Some(c@),
                None => None,
            },
            account: match self.account {
                Some(a) => Some(a@),
                None => None,
            },
        }
    }
}

/// The views of a sequence of bookmarks.
pub open spec fn views_of(s: Seq<Bookmark>) -> Seq<BookmarkModel> {
    s.map_values(|b: Bookmark| b@)
}

/// The RFC 2822 form of an RFC 3339 timestamp string, `None` when the
/// string does not parse as RFC 3339.
pub uninterp spec fn rfc2822_of(s: Seq<char>) -> Option<Seq<char>>;

/// Relies on chrono's `DateTime::parse_from_rfc3339` and `DateTime::format`
/// with the RFC 2822 layout (`%a, %d %b %Y %H:%M:%S %z`, day zero-padded,
/// English names): whether the string parses as RFC 3339, and the RFC 2822
/// rendering of the parsed instant, depend on the characters of the string
/// alone.
#[verifier::external_body]
fn reformat_rfc3339(s: &str) -> (r: Option<String>)
    ensures
        r is Some <==> rfc2822_of(s@) is Some,
        r is Some ==> r->0@ == rfc2822_of(s@)->0,
{
    match chrono::DateTime::parse_from_rfc3339(s) {
        Ok(d) => Some(d.format("%a, %d %b %Y %H:%M:%S %z").to_string()),
        Err(_) => None,
    }
}

/// Fixed document head up to the channel link, which holds the caller's
/// host prefixed with `https://` inside a CDATA section.
pub open spec fn feed_header(host: Seq<char>) -> Seq<char> {
    "<?xml version=\"1.0\" encoding=\"UTF-8\"?><rss version=\"2.0\" xmlns:content=\"http://purl.org/rss/1.0/modules/content/\" xmlns:dc=\"http://purl.org/dc/elements/1.1/\"><channel><title>Mastodon Bookmarks</title><description></description><link><![CDATA[https://"@
        + host + "]]></link>"@
}

pub open spec fn feed_footer() -> Seq<char> {
    "</channel></rss>"@
}

/// The `<link>`/`<title>` pair of one item: the card's url and escaped
/// title when a card is present, else the bookmark's own url for both.
pub open spec fn item_links(b: BookmarkModel) -> Seq<char> {
    match b.card {
        Some(c) => "<link><![CDATA["@ + c.url + "]]></link><title><![CDATA["@ + escape_spec(
            c.title,
        ) + "]]></title>"@,
        None => "<link><![CDATA["@ + b.url + "]]></link><title><![CDATA["@ + b.url
            + "]]></title>"@,
    }
}

/// The `<dc:creator>` element of one item, present only when the bookmark
/// has an account.
pub open spec fn item_creator(b: BookmarkModel) -> Seq<char> {
    match b.account {
        Some(a) => "<dc:creator><![CDATA[@"@ + escape_spec(a.username) + "]]></dc:creator>"@,
        None => Seq::<char>::empty(),
    }
}

/// One `<item>` element; meaningful when the bookmark's timestamp parses.
pub open spec fn item_spec(b: BookmarkModel) -> Seq<char> {
    "<item><pubDate>"@ + rfc2822_of(b.created_at)->0 + "</pubDate><guid><![CDATA["@ + b.url
        + "]]></guid>"@ + item_links(b) + item_creator(b)
        + "<content:encoded><![CDATA[<p><a href=\""@ + b.url
        + "\">Original Mastodon Post</a></p>"@ + escape_spec(b.content)
        + "]]></content:encoded></item>\n"@
}

/// All items, in the order received from upstream.
pub open spec fn items_spec(bs: Seq<BookmarkModel>) -> Seq<char>
    decreases bs.len(),
{
    if bs.len() == 0 {
        Seq::<char>::empty()
    } else {
        items_spec(bs.drop_last()) + item_spec(bs.last())
    }
}

/// Every bookmark's `created_at` parses as RFC 3339.
pub open spec fn render_ok(bs: Seq<BookmarkModel>) -> bool {
    forall|i: int| 0 <= i < bs.len() ==> (#[trigger] rfc2822_of(bs[i].created_at)) is Some
}

/// The complete document for a caller host and a bookmark sequence.
pub open spec fn render_spec(host: Seq<char>, bs: Seq<BookmarkModel>) -> Seq<char> {
    feed_header(host) + items_spec(bs) + feed_footer()
}

/// Law: rendering preserves upstream order and resorts nothing — the items
/// of a concatenation of two bookmark lists are the items of the first
/// followed by the items of the second.
pub proof fn lemma_items_append(bs1: Seq<BookmarkModel>, bs2: Seq<BookmarkModel>)
    ensures
        items_spec(bs1 + bs2) == items_spec(bs1) + items_spec(bs2),
    decreases bs2.len(),
{
    if bs2.len() == 0 {
        assert(bs1 + bs2 =~= bs1);
        assert(items_spec(bs2) =~= Seq::<char>::empty());
        assert(items_spec(bs1) + items_spec(bs2) =~= items_spec(bs1));
    } else {
        let bp = bs2.drop_last();
        let b = bs2.last();
        lemma_items_append(bs1, bp);
        assert(bs1 + bs2 =~= (bs1 + bp).push(b));
        assert((bs1 + bp).push(b).drop_last() =~= bs1 + bp);
        assert((bs1 + bp).push(b).last() == b);
        assert(bs2 =~= bp.push(b));
        assert(bp.push(b).drop_last() =~= bp);
        assert(items_spec(bs1 + bs2) =~= items_spec(bs1) + items_spec(bs2)) by {
            assert(items_spec(bs1 + bs2) == items_spec(bs1 + bp) + item_spec(b));
            assert(items_spec(bs2) == items_spec(bp) + item_spec(b));
            assert(items_spec(bs1) + (items_spec(bp) + item_spec(b)) =~= (items_spec(bs1)
                + items_spec(bp)) + item_spec(b));
        }
    }
}

/// Law: a bookmark with no card renders `<link>` and `<title>` equal to its
/// own url.
pub proof fn lemma_card_fallback(b: BookmarkModel)
    requires
        b.card is None,
    ensures
        item_links(b) == "<link><![CDATA["@ + b.url + "]]></link><title><![CDATA["@ + b.url
            + "]]></title>"@,
{
}

/// Law: a bookmark with no account renders no `<dc:creator>` element at all.
pub proof fn lemma_no_account_no_creator(b: BookmarkModel)
    requires
        b.account is None,
    ensures
        item_creator(b) == Seq::<char>::empty(),
{
}

/// Render one `<item>` element. Fails, returning `TimestampInvalid`,
/// exactly when the bookmark's `created_at` is not valid RFC 3339.
fn render_item(b: &Bookmark) -> (r: Result<String, FeedError>)
    ensures
        r is Ok <==> rfc2822_of(b@.created_at) is Some,
        r is Ok ==> r->Ok_0@ == item_spec(b@),
        r is Err ==> r->Err_0 == FeedError::TimestampInvalid,
{
    let date = match reformat_rfc3339(b.created_at.as_str()) {
        Some(d) => d,
        None => {
            return Err(FeedError::TimestampInvalid);
        },
    };
    let mut s = String::new();
    s.append("<item><pubDate>");
    s.append(date.as_str());
    s.append("</pubDate><guid><![CDATA[");
    s.append(b.url.as_str());
    s.append("]]></guid>");
    match &b.card {
        Some(card) => {
            s.append("<link><![CDATA[");
            s.append(card.url.as_str());
            s.append("]]></link><title><![CDATA[");
            let et = escape_for_cdata(card.title.as_str());
            s.append(et.as_str());
            s.append("]]></title>");
        },
        None => {
            s.append("<link><![CDATA[");
            s.append(b.url.as_str());
            s.append("]]></link><title><![CDATA[");
            s.append(b.url.as_str());
            s.append("]]></title>");
        },
    }
    match &b.account {
        Some(acct) => {
            s.append("<dc:creator><![CDATA[@");
            let eu = escape_for_cdata(acct.username.as_str());
            s.append(eu.as_str());
            s.append("]]></dc:creator>");
        },
        None => {},
    }
    s.append("<content:encoded><![CDATA[<p><a href=\"");
    s.append(b.url.as_str());
    s.append("\">Original Mastodon Post</a></p>");
    let ec = escape_for_cdata(b.content.as_str());
    s.append(ec.as_str());
    s.append("]]></content:encoded></item>\n");
    proof {
        assert(s@ =~= item_spec(b@));
    }
    Ok(s)
}

/// Render the complete RSS document for the caller's host and the decoded
/// bookmarks, in upstream order. Succeeds exactly when every bookmark's
/// `created_at` parses as RFC 3339; otherwise the whole render fails with
/// `TimestampInvalid` and nothing is returned.
pub fn render_feed(host: &str, bookmarks: &Vec<Bookmark>) -> (r: Result<String, FeedError>)
    ensures
        r is Ok <==> render_ok(views_of(bookmarks@)),
        r is Ok ==> r->Ok_0@ == render_spec(host@, views_of(bookmarks@)),
        r is Err ==> r->Err_0 == FeedError::TimestampInvalid,
{
    let ghost bs = views_of(bookmarks@);
    let mut body = String::new();
    body.append(
        "<?xml version=\"1.0\" encoding=\"UTF-8\"?><rss version=\"2.0\" xmlns:content=\"http://purl.org/rss/1.0/modules/content/\" xmlns:dc=\"http://purl.org/dc/elements/1.1/\"><channel><title>Mastodon Bookmarks</title><description></description><link><![CDATA[https://",
    );
    body.append(host);
    body.append("]]></link>");
    let mut i: usize = 0;
    proof {
        assert(bs.take(0) =~= Seq::<BookmarkModel>::empty());
        assert(body@ =~= feed_header(host@) + items_spec(bs.take(0)));
    }
    while i < bookmarks.len()
        invariant
            bs == views_of(bookmarks@),
            i <= bookmarks@.len(),
            bs.len() == bookmarks@.len(),
            forall|k: int| 0 <= k < i ==> (#[trigger] rfc2822_of(bs[k].created_at)) is Some,
            body@ == feed_header(host@) + items_spec(bs.take(i as int)),
        decreases bookmarks@.len() - i,
    {
        let item = match render_item(&bookmarks[i]) {
            Ok(s) => s,
            Err(e) => {
                proof {
                    assert(rfc2822_of(bs[i as int].created_at) is None);
                }
                return Err(e);
            },
        };
        body.append(item.as_str());
        proof {
            assert(bs.take(i + 1) =~= bs.take(i as int).push(bs[i as int]));
            assert(bs.take(i + 1).drop_last() =~= bs.take(i as int));
            assert(bs.take(i + 1).last() == bs[i as int]);
            assert(body@ =~= feed_header(host@) + items_spec(bs.take(i + 1)));
        }
        i = i + 1;
    }
    body.append("</channel></rss>");
    proof {
        assert(bs.take(bookmarks@.len() as int) =~= bs);
        assert(body@ =~= render_spec(host@, bs));
    }
    Ok(body)
}

} // verus!
