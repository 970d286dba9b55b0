use bskycord::post::{Author, FeedPost, PostTime};
use bskycord::render::{escape_markdown, extract_rkey, make_message};

fn post(uri: &str, did: &str, display: Option<&str>, images: &[&str]) -> FeedPost {
    FeedPost {
        uri: uri.to_string(),
        author: Author {
            did: did.to_string(),
            handle: "alice.bsky.social".to_string(),
            display_name: display.map(|d| d.to_string()),
            avatar: Some("https://cdn/avatar.jpg".to_string()),
        },
        text: "hi *there*".to_string(),
        created_at: Some(PostTime { secs: 1_700_000_000, nanos: 5 }),
        images: images.iter().map(|s| s.to_string()).collect(),
    }
}

#[test]
fn escapes_every_markup_character() {
    assert_eq!(escape_markdown("*_>`[-#"), "\\*\\_\\>\\`\\[\\-\\#");
}

#[test]
fn escape_leaves_plain_text() {
    assert_eq!(escape_markdown("plain text, é!"), "plain text, é!");
    assert_eq!(escape_markdown(""), "");
}

#[test]
fn escape_mixed_text() {
    assert_eq!(escape_markdown("a*b_c # d"), "a\\*b\\_c \\# d");
}

#[test]
fn rkey_of_post_record() {
    let r = extract_rkey("at://did:plc:abc/app.bsky.feed.post/3kxyz", "did:plc:abc");
    assert_eq!(r, Some("3kxyz".to_string()));
}

#[test]
fn rkey_refuses_other_author() {
    assert_eq!(extract_rkey("at://did:plc:abc/app.bsky.feed.post/3kxyz", "did:plc:xyz"), None);
}

#[test]
fn rkey_refuses_other_collection() {
    assert_eq!(extract_rkey("at://did:plc:abc/app.bsky.feed.like/3kxyz", "did:plc:abc"), None);
    assert_eq!(extract_rkey("did:plc:abc", "did:plc:abc"), None);
}

#[test]
fn message_fields() {
    let p = post("at://did:plc:abc/app.bsky.feed.post/3kxyz", "did:plc:abc", Some("Alice"), &["i1", "i2", "i3"]);
    let m = make_message(&p).unwrap();
    assert_eq!(m.post_url, "https://bsky.app/profile/alice.bsky.social/post/3kxyz");
    assert_eq!(m.content, "<https://bsky.app/profile/alice.bsky.social/post/3kxyz>");
    assert_eq!(m.author_name, "Alice (alice.bsky.social)");
    assert_eq!(m.author_url, "https://bsky.app/profile/alice.bsky.social");
    assert_eq!(m.author_icon, Some("https://cdn/avatar.jpg".to_string()));
    assert_eq!(m.description, "hi \\*there\\*");
    assert_eq!(m.timestamp, Some(PostTime { secs: 1_700_000_000, nanos: 5 }));
    assert_eq!(m.image, Some("i1".to_string()));
    assert_eq!(m.extra_images, vec!["i2".to_string(), "i3".to_string()]);
}

#[test]
fn message_without_display_name_or_images() {
    let p = post("at://did:plc:abc/app.bsky.feed.post/k", "did:plc:abc", None, &[]);
    let m = make_message(&p).unwrap();
    assert_eq!(m.author_name, "alice.bsky.social");
    assert_eq!(m.image, None);
    assert!(m.extra_images.is_empty());
}

#[test]
fn message_refused_for_malformed_uri() {
    let p = post("https://example.com/x", "did:plc:abc", None, &[]);
    assert!(make_message(&p).is_none());
}
