use bskycord::listing::{
    decimal_text, list_subscriptions, listing_text, scope_of, search_subscriptions, text_occurs,
    Scope, SUGGESTION_LIMIT,
};
use bskycord::store::Subscription;

fn sub(did: &str, handle: &str, guild: Option<u64>, channel: u64) -> Subscription {
    Subscription { did: did.to_string(), handle: handle.to_string(), guild, channel }
}

fn rows() -> Vec<Subscription> {
    vec![
        sub("did:c", "carol", Some(1), 20),
        sub("did:a", "alice", Some(1), 30),
        sub("did:b", "bob", Some(2), 20),
        sub("did:a", "alice", Some(1), 10),
        sub("did:d", "dave", None, 99),
    ]
}

#[test]
fn listing_of_guild_is_ordered() {
    let r = list_subscriptions(&rows(), Scope::Guild(1));
    let got: Vec<(String, u64)> = r.iter().map(|s| (s.handle.clone(), s.channel)).collect();
    assert_eq!(got, vec![("alice".to_string(), 10), ("alice".to_string(), 30), ("carol".to_string(), 20)]);
}

#[test]
fn listing_of_direct_channel() {
    assert_eq!(scope_of(None, 99), Scope::Channel(99));
    assert_eq!(scope_of(Some(4), 99), Scope::Guild(4));
    let r = list_subscriptions(&rows(), scope_of(None, 99));
    assert_eq!(r.len(), 1);
    assert_eq!(r[0].handle, "dave");
}

#[test]
fn listing_text_lines() {
    let r = list_subscriptions(&rows(), Scope::Guild(1));
    assert_eq!(listing_text(&r), "- alice — <#10>\n- alice — <#30>\n- carol — <#20>\n");
    assert_eq!(listing_text(&Vec::new()), "No follows in this guild");
}

#[test]
fn search_by_substring_in_channel() {
    let subs = vec![
        sub("did:3", "zed.example", None, 5),
        sub("did:1", "alexander", None, 5),
        sub("did:2", "xander", None, 5),
        sub("did:4", "ander.other", None, 6),
    ];
    let r = search_subscriptions(&subs, 5, "ander", SUGGESTION_LIMIT);
    let got: Vec<&str> = r.iter().map(|s| s.handle.as_str()).collect();
    assert_eq!(got, vec!["alexander", "xander"]);
    let r = search_subscriptions(&subs, 5, "", 2);
    let got: Vec<&str> = r.iter().map(|s| s.handle.as_str()).collect();
    assert_eq!(got, vec!["alexander", "xander"]);
}

#[test]
fn search_is_capped() {
    let subs: Vec<Subscription> = (0..30).map(|i| sub(&format!("did:{i}"), &format!("h{i:02}"), None, 1)).collect();
    let r = search_subscriptions(&subs, 1, "h", SUGGESTION_LIMIT);
    assert_eq!(r.len(), 20);
    assert_eq!(r[0].handle, "h00");
    assert_eq!(r[19].handle, "h19");
}

#[test]
fn substring_test() {
    assert!(text_occurs("", "abc"));
    assert!(text_occurs("bc", "abc"));
    assert!(!text_occurs("abcd", "abc"));
    assert!(!text_occurs("ca", "abc"));
}

#[test]
fn decimal_numbers() {
    assert_eq!(decimal_text(0), "0");
    assert_eq!(decimal_text(9), "9");
    assert_eq!(decimal_text(10), "10");
    assert_eq!(decimal_text(u64::MAX), "18446744073709551615");
}

#[test]
fn search_ignores_ascii_case() {
    let subs = vec![sub("did:a", "alice.bsky.social", None, 5), sub("did:b", "BOB.example", None, 5)];
    let r = search_subscriptions(&subs, 5, "LI", SUGGESTION_LIMIT);
    let got: Vec<&str> = r.iter().map(|s| s.handle.as_str()).collect();
    assert_eq!(got, vec!["alice.bsky.social"]);
    let r = search_subscriptions(&subs, 5, "A", SUGGESTION_LIMIT);
    let got: Vec<&str> = r.iter().map(|s| s.handle.as_str()).collect();
    assert_eq!(got, vec!["BOB.example", "alice.bsky.social"]);
    let r = search_subscriptions(&subs, 5, "bob", SUGGESTION_LIMIT);
    assert_eq!(r.len(), 1);
    assert_eq!(r[0].did, "did:b");
}

#[test]
fn substring_case_and_wildcards() {
    assert!(text_occurs("ALI", "alice"));
    assert!(text_occurs("ice", "ALICE"));
    assert!(!text_occurs("%", "alice"));
    assert!(!text_occurs("a_i", "alice"));
    assert!(!text_occurs("é", "É"));
}
