use mastodon_bookmark_rss::decode::decode_bookmarks;
use mastodon_bookmark_rss::errors::FeedError;
use mastodon_bookmark_rss::escape::escape_for_cdata;
use mastodon_bookmark_rss::fetch::accumulate_chunk;
use mastodon_bookmark_rss::fetch::check_upstream_status;
use mastodon_bookmark_rss::fetch::collect_body;
use mastodon_bookmark_rss::fetch::MAX_UPSTREAM_RESPONSE_SIZE;
use mastodon_bookmark_rss::handler::bearer_header;
use mastodon_bookmark_rss::handler::bookmarks_url;
use mastodon_bookmark_rss::handler::feed_from_body;
use mastodon_bookmark_rss::handler::handle_upstream_response;
use mastodon_bookmark_rss::handler::user_agent;
use mastodon_bookmark_rss::limiter::BucketConfig;
use mastodon_bookmark_rss::limiter::BucketDecision;
use mastodon_bookmark_rss::limiter::DualLimiter;
use mastodon_bookmark_rss::limiter::FeedKey;
use mastodon_bookmark_rss::limiter::TokenBucket;
use mastodon_bookmark_rss::render::render_feed;
use mastodon_bookmark_rss::render::Account;
use mastodon_bookmark_rss::render::Bookmark;
use mastodon_bookmark_rss::render::Card;

fn key(host: &str, token: &str) -> FeedKey {
    FeedKey {
        host: host.to_string(),
        token: token.to_string(),
    }
}

fn bookmark(url: &str, created_at: &str, content: &str) -> Bookmark {
    Bookmark {
        url: url.to_string(),
        created_at: created_at.to_string(),
        content: content.to_string(),
        card: None,
        account: None,
    }
}

// --- escaping ---

#[test]
fn escape_replaces_ampersand() {
    assert_eq!(escape_for_cdata("hi & bye"), "hi &amp; bye");
}

#[test]
fn escape_deletes_terminator() {
    assert_eq!(escape_for_cdata("a]]>b"), "ab");
}

#[test]
fn escape_adversarial_mixes() {
    assert_eq!(escape_for_cdata("&]]>"), "&amp;");
    assert_eq!(escape_for_cdata("]]&>"), "]]&amp;>");
}

#[test]
fn escape_removes_reassembled_terminator() {
    // Deleting one terminator must not leave another assembled in its place.
    assert_eq!(escape_for_cdata("]]]]>>"), "");
    assert_eq!(escape_for_cdata("]]]>>"), "]>");
}

#[test]
fn escape_leaves_plain_text_alone() {
    assert_eq!(escape_for_cdata("<b>bold</b> \"quoted\""), "<b>bold</b> \"quoted\"");
    assert_eq!(escape_for_cdata(""), "");
}

#[test]
fn escape_output_never_contains_terminator() {
    let cases = [
        "]]>",
        "]]>]]>",
        "]]]]>>",
        "&]]>",
        "]]&>",
        "a]]]]>>b",
        "]] >]]>",
        "]]>]",
        "]]]]]>>>",
    ];
    for c in cases {
        let out = escape_for_cdata(c);
        assert!(!out.contains("]]>"), "input {:?} gave {:?}", c, out);
    }
}

// --- rate limiter ---

#[test]
fn bucket_admits_capacity_then_rejects() {
    let cfg = BucketConfig {
        capacity: 5,
        period_ms: 2000,
    };
    let now = 1_000_000u64;
    let mut b = TokenBucket::full(&cfg, now);
    for _ in 0..5 {
        assert_eq!(b.check(&cfg, now), BucketDecision::Admitted);
    }
    assert_eq!(
        b.check(&cfg, now),
        BucketDecision::Rejected {
            retry_after_ms: 2000
        }
    );
    // After one full refill period exactly one more is admitted.
    assert_eq!(b.check(&cfg, now + 2000), BucketDecision::Admitted);
    assert_eq!(
        b.check(&cfg, now + 2000),
        BucketDecision::Rejected {
            retry_after_ms: 2000
        }
    );
}

#[test]
fn bucket_refill_is_capped_at_capacity() {
    let cfg = BucketConfig {
        capacity: 2,
        period_ms: 1000,
    };
    let now = 0u64;
    let mut b = TokenBucket::full(&cfg, now);
    assert_eq!(b.check(&cfg, now), BucketDecision::Admitted);
    assert_eq!(b.check(&cfg, now), BucketDecision::Admitted);
    // A long idle time refills to capacity, not beyond.
    let later = 1_000_000u64;
    assert_eq!(b.check(&cfg, later), BucketDecision::Admitted);
    assert_eq!(b.check(&cfg, later), BucketDecision::Admitted);
    assert!(matches!(
        b.check(&cfg, later),
        BucketDecision::Rejected { .. }
    ));
}

#[test]
fn dual_limiter_missing_key_is_rejected() {
    let mut lim = DualLimiter::new();
    let src = key("203.0.113.7", "");
    assert_eq!(
        lim.check(None, &src, 0),
        Err(FeedError::RateLimited { retry_after_ms: 0 })
    );
}

#[test]
fn dual_limiter_source_tier_limits_bursts() {
    let mut lim = DualLimiter::new();
    let feed = key("mastodon.example", "SECRET-REDACTED");
    let src = key("203.0.113.7", "");
    // The per-source bucket (burst 5) empties before the per-feed one.
    for _ in 0..5 {
        assert_eq!(lim.check(Some(&feed), &src, 0), Ok(()));
    }
    assert_eq!(
        lim.check(Some(&feed), &src, 0),
        Err(FeedError::RateLimited {
            retry_after_ms: 2000
        })
    );
}

#[test]
fn dual_limiter_feed_tier_limits_across_sources() {
    let mut lim = DualLimiter::new();
    let feed = key("mastodon.example", "SECRET-REDACTED");
    // Distinct source addresses: only the per-feed bucket (burst 10) limits.
    for i in 0..10 {
        let src = key(&format!("198.51.100.{}", i), "");
        assert_eq!(lim.check(Some(&feed), &src, 0), Ok(()));
    }
    let src = key("198.51.100.250", "");
    assert_eq!(
        lim.check(Some(&feed), &src, 0),
        Err(FeedError::RateLimited {
            retry_after_ms: 60000
        })
    );
    // A different feed key is a fresh partition.
    let other = key("mastodon.example", "SECRET-REDACTED-2");
    assert_eq!(lim.check(Some(&other), &src, 0), Ok(()));
}

// --- bounded fetch ---

#[test]
fn collect_body_concatenates_in_order() {
    let chunks = vec![b"abc".to_vec(), b"".to_vec(), b"def".to_vec()];
    assert_eq!(collect_body(&chunks), Ok(b"abcdef".to_vec()));
}

#[test]
fn collect_body_rejects_oversized_total() {
    let chunk = vec![0u8; 3 * 1024 * 1024];
    let chunks = vec![chunk.clone(), chunk];
    assert_eq!(collect_body(&chunks), Err(FeedError::UpstreamTooLarge));
}

#[test]
fn accumulate_chunk_stops_at_ceiling() {
    let mut body = vec![7u8; MAX_UPSTREAM_RESPONSE_SIZE - 2];
    // Exactly reaching the ceiling is allowed...
    assert!(accumulate_chunk(&mut body, &[1, 2]));
    assert_eq!(body.len(), MAX_UPSTREAM_RESPONSE_SIZE);
    // ...but one byte more is refused and the body is left as it was.
    assert!(!accumulate_chunk(&mut body, &[3]));
    assert_eq!(body.len(), MAX_UPSTREAM_RESPONSE_SIZE);
    assert!(accumulate_chunk(&mut body, &[]));
}

#[test]
fn upstream_status_2xx_only() {
    assert_eq!(check_upstream_status(200), Ok(()));
    assert_eq!(check_upstream_status(204), Ok(()));
    assert_eq!(check_upstream_status(299), Ok(()));
    assert_eq!(
        check_upstream_status(302),
        Err(FeedError::UpstreamTransport { status: 302 })
    );
    assert_eq!(
        check_upstream_status(404),
        Err(FeedError::UpstreamTransport { status: 404 })
    );
    assert_eq!(
        check_upstream_status(500),
        Err(FeedError::UpstreamTransport { status: 500 })
    );
}

// --- decoding ---

#[test]
fn decode_full_record() {
    let body = br#"[{"url":"https://m.example/1","created_at":"2023-01-01T00:00:00Z","content":"c","card":{"title":"t","url":"https://card.example"},"account":{"username":"alice"},"extra":42}]"#.to_vec();
    let got = decode_bookmarks(&body).unwrap();
    assert_eq!(got.len(), 1);
    assert_eq!(got[0].url, "https://m.example/1");
    assert_eq!(got[0].created_at, "2023-01-01T00:00:00Z");
    assert_eq!(got[0].content, "c");
    let card = got[0].card.as_ref().unwrap();
    assert_eq!(card.title, "t");
    assert_eq!(card.url, "https://card.example");
    assert_eq!(got[0].account.as_ref().unwrap().username, "alice");
}

#[test]
fn decode_defaults_optional_fields() {
    let body = br#"[{"url":"u","created_at":"d","content":"c","card":{"url":"cu"},"account":{}}]"#
        .to_vec();
    let got = decode_bookmarks(&body).unwrap();
    let card = got[0].card.as_ref().unwrap();
    assert_eq!(card.title, "");
    assert_eq!(card.url, "cu");
    assert_eq!(got[0].account.as_ref().unwrap().username, "");
}

#[test]
fn decode_null_and_missing_card_mean_none() {
    let body =
        br#"[{"url":"u","created_at":"d","content":"c","card":null},{"url":"u2","created_at":"d2","content":"c2"}]"#
            .to_vec();
    let got = decode_bookmarks(&body).unwrap();
    assert!(got[0].card.is_none());
    assert!(got[0].account.is_none());
    assert!(got[1].card.is_none());
    assert!(got[1].account.is_none());
}

#[test]
fn decode_missing_required_field_fails() {
    let body = br#"[{"created_at":"d","content":"c"}]"#.to_vec();
    assert_eq!(decode_bookmarks(&body), Err(FeedError::UpstreamMalformed));
}

#[test]
fn decode_wrong_type_fails() {
    let body = br#"[{"url":7,"created_at":"d","content":"c"}]"#.to_vec();
    assert_eq!(decode_bookmarks(&body), Err(FeedError::UpstreamMalformed));
    let body2 = br#"[{"url":"u","created_at":"d","content":"c","card":"nope"}]"#.to_vec();
    assert_eq!(decode_bookmarks(&body2), Err(FeedError::UpstreamMalformed));
}

#[test]
fn decode_non_array_fails() {
    assert_eq!(
        decode_bookmarks(&br#"{"url":"u"}"#.to_vec()),
        Err(FeedError::UpstreamMalformed)
    );
    assert_eq!(
        decode_bookmarks(&b"not json at all".to_vec()),
        Err(FeedError::UpstreamMalformed)
    );
    assert_eq!(decode_bookmarks(&br#"[]"#.to_vec()).unwrap().len(), 0);
}

// --- rendering ---

#[test]
fn feed_scenario_exact_fragments() {
    let body =
        br#"[{"url":"https://m.example/1","created_at":"2023-01-01T00:00:00Z","content":"hi & bye"}]"#
            .to_vec();
    let xml = feed_from_body("reader.example", &body).unwrap();
    assert!(xml.starts_with("<?xml version=\"1.0\" encoding=\"UTF-8\"?>"));
    assert!(xml.contains("<link><![CDATA[https://reader.example]]></link>"));
    assert!(xml.contains("<guid><![CDATA[https://m.example/1]]></guid>"));
    assert!(xml.contains("<pubDate>Sun, 01 Jan 2023 00:00:00 +0000</pubDate>"));
    assert!(xml.contains(
        "<content:encoded><![CDATA[<p><a href=\"https://m.example/1\">Original Mastodon Post</a></p>hi &amp; bye]]></content:encoded>"
    ));
    assert!(xml.contains("<title>Mastodon Bookmarks</title>"));
    assert!(xml.ends_with("</channel></rss>"));
}

#[test]
fn bad_timestamp_fails_whole_request() {
    let body = br#"[{"url":"https://m.example/1","created_at":"2023-01-01T00:00:00Z","content":"a"},{"url":"https://m.example/2","created_at":"not-a-date","content":"b"}]"#.to_vec();
    // The first record alone would render, but the failing second one
    // aborts everything: no partial document is returned.
    assert_eq!(
        feed_from_body("reader.example", &body),
        Err(FeedError::TimestampInvalid)
    );
}

#[test]
fn items_keep_upstream_order() {
    let bookmarks = vec![
        bookmark("https://m.example/c", "2023-03-01T00:00:00Z", "third"),
        bookmark("https://m.example/a", "2023-01-01T00:00:00Z", "first"),
        bookmark("https://m.example/b", "2023-02-01T00:00:00Z", "second"),
    ];
    let xml = render_feed("reader.example", &bookmarks).unwrap();
    let pc = xml.find("<guid><![CDATA[https://m.example/c]]>").unwrap();
    let pa = xml.find("<guid><![CDATA[https://m.example/a]]>").unwrap();
    let pb = xml.find("<guid><![CDATA[https://m.example/b]]>").unwrap();
    // No resorting by date or key: upstream order c, a, b is kept.
    assert!(pc < pa && pa < pb);
}

#[test]
fn fallback_fields_without_card_and_account() {
    let bookmarks = vec![bookmark("https://m.example/x", "2023-01-01T00:00:00Z", "c")];
    let xml = render_feed("reader.example", &bookmarks).unwrap();
    assert!(xml.contains("<link><![CDATA[https://m.example/x]]></link>"));
    assert!(xml.contains("<title><![CDATA[https://m.example/x]]></title>"));
    assert!(!xml.contains("<dc:creator>"));
}

#[test]
fn card_and_account_are_rendered_escaped() {
    let mut b = bookmark("https://m.example/x", "2023-01-01T00:00:00Z", "body ]]> here");
    b.card = Some(Card {
        title: "T & T".to_string(),
        url: "https://card.example/p".to_string(),
    });
    b.account = Some(Account {
        username: "al & ice".to_string(),
    });
    let xml = render_feed("reader.example", &vec![b]).unwrap();
    assert!(xml.contains("<link><![CDATA[https://card.example/p]]></link>"));
    assert!(xml.contains("<title><![CDATA[T &amp; T]]></title>"));
    assert!(xml.contains("<dc:creator><![CDATA[@al &amp; ice]]></dc:creator>"));
    // The terminator inside the content was deleted.
    assert!(xml.contains("</p>body  here]]></content:encoded>"));
}

// --- handler composition and builders ---

#[test]
fn handle_upstream_response_maps_failures() {
    let ok_body = vec![br#"[]"#.to_vec()];
    assert!(handle_upstream_response("reader.example", 200, &ok_body).is_ok());
    assert_eq!(
        handle_upstream_response("reader.example", 403, &ok_body),
        Err(FeedError::UpstreamTransport { status: 403 })
    );
    let big = vec![vec![b' '; MAX_UPSTREAM_RESPONSE_SIZE], vec![b' ']];
    assert_eq!(
        handle_upstream_response("reader.example", 200, &big),
        Err(FeedError::UpstreamTooLarge)
    );
    assert_eq!(
        handle_upstream_response("reader.example", 200, &vec![b"{}".to_vec()]),
        Err(FeedError::UpstreamMalformed)
    );
}

#[test]
fn error_status_codes_and_messages() {
    assert_eq!(
        FeedError::RateLimited { retry_after_ms: 5 }.status_code(),
        429
    );
    assert_eq!(FeedError::UpstreamTransport { status: 500 }.status_code(), 500);
    assert_eq!(FeedError::UpstreamTooLarge.status_code(), 500);
    assert_eq!(FeedError::UpstreamMalformed.status_code(), 500);
    assert_eq!(FeedError::TimestampInvalid.status_code(), 500);
    assert_eq!(
        FeedError::UpstreamTooLarge.message(),
        "mastodon response too large"
    );
    assert_eq!(
        FeedError::TimestampInvalid.message(),
        "parsing a datetime from mastodon failed"
    );
}

#[test]
fn request_builders() {
    assert_eq!(
        bookmarks_url("mastodon.example"),
        "https://mastodon.example/api/v1/bookmarks"
    );
    assert_eq!(bearer_header("tok"), "Bearer tok");
    assert_eq!(
        user_agent("reader.example"),
        "mastodon-bookmark-rss (+https://reader.example)"
    );
}
