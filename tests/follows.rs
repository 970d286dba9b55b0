use bskycord::follow::{FollowError, UnfollowOutcome};
use bskycord::replies::{follow_reply, unfollow_reply, DisplayAsAlt};
use bskycord::store::{Follow, Subscription, SubscriptionStore};

fn follow(store: &mut SubscriptionStore, did: &str, channel: u64, remote_calls: &mut u32) {
    let created = if store.needs_remote_follow(did) {
        *remote_calls += 1;
        Some(format!("at://me/app.bsky.graph.follow/{did}"))
    } else {
        None
    };
    store
        .finish_follow(did.to_string(), format!("{did}.handle"), Some(7), channel, created)
        .unwrap();
}

#[test]
fn second_channel_needs_no_remote_follow() {
    let mut store = SubscriptionStore::new();
    let mut calls = 0;
    follow(&mut store, "did:a", 1, &mut calls);
    follow(&mut store, "did:a", 2, &mut calls);
    assert_eq!(calls, 1);
    assert_eq!(store.follows.len(), 1);
    assert_eq!(store.subscriptions.len(), 2);
}

#[test]
fn follow_without_remote_follow_is_refused() {
    let mut store = SubscriptionStore::new();
    let r = store.finish_follow("did:a".to_string(), "a".to_string(), None, 1, None);
    assert_eq!(r, Err(FollowError::MissingRemoteFollow));
    assert!(store.follows.is_empty());
    assert!(store.subscriptions.is_empty());
}

#[test]
fn removing_last_subscription_revokes_once() {
    let mut store = SubscriptionStore::new();
    let mut calls = 0;
    follow(&mut store, "did:a", 1, &mut calls);
    follow(&mut store, "did:a", 2, &mut calls);
    match store.begin_unfollow("did:a", 1) {
        UnfollowOutcome::Unsubscribed => {}
        other => panic!("unexpected {other:?}"),
    }
    assert_eq!(store.follows.len(), 1);
    match store.begin_unfollow("did:a", 2) {
        UnfollowOutcome::Revoke(uri) => assert_eq!(uri, "at://me/app.bsky.graph.follow/did:a"),
        other => panic!("unexpected {other:?}"),
    }
    assert!(store.commit_unfollow("did:a"));
    assert!(store.follows.is_empty());
    assert!(store.subscriptions.is_empty());
    assert_eq!(store.get_follow("did:a"), None);
}

#[test]
fn unfollow_of_unknown_binding_reports_not_followed() {
    let mut store = SubscriptionStore::new();
    let mut calls = 0;
    follow(&mut store, "did:a", 1, &mut calls);
    assert!(matches!(store.begin_unfollow("did:a", 5), UnfollowOutcome::NotFollowed));
    assert!(matches!(store.begin_unfollow("did:b", 1), UnfollowOutcome::NotFollowed));
    assert_eq!(store.subscriptions.len(), 1);
}

#[test]
fn commit_keeps_follow_when_resubscribed() {
    let mut store = SubscriptionStore::new();
    let mut calls = 0;
    follow(&mut store, "did:a", 1, &mut calls);
    assert!(matches!(store.begin_unfollow("did:a", 1), UnfollowOutcome::Revoke(_)));
    follow(&mut store, "did:a", 3, &mut calls);
    assert_eq!(calls, 1);
    assert!(!store.commit_unfollow("did:a"));
    assert_eq!(store.follows.len(), 1);
}

#[test]
fn duplicate_bindings_removed_together() {
    let mut store = SubscriptionStore::new();
    let mut calls = 0;
    follow(&mut store, "did:a", 1, &mut calls);
    follow(&mut store, "did:a", 1, &mut calls);
    follow(&mut store, "did:b", 1, &mut calls);
    assert_eq!(store.subscriptions.len(), 3);
    assert!(store.remove_subscription("did:a", 1));
    assert_eq!(store.subscriptions.len(), 1);
    assert!(!store.has_other_subscriptions("did:a"));
    assert!(store.has_other_subscriptions("did:b"));
    assert_eq!(store.remove_follow_if_present("did:a"), Some("at://me/app.bsky.graph.follow/did:a".to_string()));
    assert_eq!(store.remove_follow_if_present("did:a"), None);
}

#[test]
fn replies_text() {
    assert_eq!(follow_reply("alice.bsky.social", 1234567890), "Followed alice.bsky.social in <#1234567890>");
    assert_eq!(unfollow_reply("did:plc:x", true), "Successfully unfollowed did:plc:x");
    assert_eq!(unfollow_reply("did:plc:x", false), "did:plc:x was not followed to begin with");
}

#[test]
fn display_as_alt_wraps() {
    let e: DisplayAsAlt<u32> = DisplayAsAlt::from(5);
    assert_eq!(e.into_inner(), 5);
}

fn row(did: &str, channel: u64) -> Subscription {
    Subscription { did: did.to_string(), handle: did.to_string(), guild: None, channel }
}

fn follow_row(did: &str) -> Follow {
    Follow { did: did.to_string(), remote_uri: format!("uri:{did}") }
}

#[test]
fn from_rows_accepts_consistent_rows() {
    let store = SubscriptionStore::from_rows(vec![follow_row("did:a"), follow_row("did:b")], vec![row("did:a", 1), row("did:a", 2)]).unwrap();
    assert_eq!(store.follows.len(), 2);
    assert_eq!(store.subscriptions.len(), 2);
    assert!(!store.needs_remote_follow("did:b"));
}

#[test]
fn from_rows_refuses_subscription_without_follow() {
    assert!(SubscriptionStore::from_rows(vec![follow_row("did:a")], vec![row("did:b", 1)]).is_none());
}

#[test]
fn from_rows_refuses_two_follows_of_one_account() {
    assert!(SubscriptionStore::from_rows(vec![follow_row("did:a"), follow_row("did:a")], vec![]).is_none());
}
