use bskycord::poll::{channels_of, plan_cycle, skipped_posts, CycleAction};
use bskycord::post::{Author, FeedPost, PostTime};
use bskycord::store::Subscription;

fn post(did: &str, secs: i64, nanos: u32) -> FeedPost {
    FeedPost {
        uri: format!("at://{did}/app.bsky.feed.post/r{secs}"),
        author: Author {
            did: did.to_string(),
            handle: format!("{did}.handle"),
            display_name: None,
            avatar: None,
        },
        text: "text".to_string(),
        created_at: Some(PostTime { secs, nanos }),
        images: Vec::new(),
    }
}

fn sub(did: &str, channel: u64) -> Subscription {
    Subscription { did: did.to_string(), handle: format!("{did}.handle"), guild: Some(1), channel }
}

fn deliveries(actions: &[CycleAction]) -> Vec<(usize, Vec<u64>)> {
    actions
        .iter()
        .filter_map(|a| match a {
            CycleAction::Deliver { post, channels, .. } => Some((*post, channels.clone())),
            CycleAction::Persist { .. } => None,
        })
        .collect()
}

fn persisted(actions: &[CycleAction]) -> Vec<i64> {
    actions
        .iter()
        .filter_map(|a| match a {
            CycleAction::Persist { watermark } => Some(*watermark),
            CycleAction::Deliver { .. } => None,
        })
        .collect()
}

#[test]
fn old_post_skipped_new_post_delivered_and_watermark_persisted() {
    let feed = vec![post("did:a", 1_699_999_999, 0), post("did:b", 1_700_000_100, 0)];
    let subs = vec![sub("did:b", 10), sub("did:b", 20), sub("did:a", 30)];
    let plan = plan_cycle(1_700_000_000, &feed, &subs);
    assert_eq!(deliveries(&plan.actions), vec![(1, vec![10, 20])]);
    assert_eq!(persisted(&plan.actions), vec![1_700_000_101]);
    assert_eq!(plan.watermark, 1_700_000_101);
    match &plan.actions[1] {
        CycleAction::Persist { watermark } => assert_eq!(*watermark, 1_700_000_101),
        _ => panic!("the watermark is stored right after the post's delivery"),
    }
}

#[test]
fn replay_against_new_watermark_delivers_nothing() {
    let feed = vec![post("did:a", 1_700_000_050, 300), post("did:b", 1_700_000_100, 0)];
    let subs = vec![sub("did:a", 1), sub("did:b", 2)];
    let first = plan_cycle(1_700_000_000, &feed, &subs);
    assert_eq!(deliveries(&first.actions).len(), 2);
    let again = plan_cycle(first.watermark, &feed, &subs);
    assert!(again.actions.is_empty());
    assert_eq!(again.watermark, first.watermark);
}

#[test]
fn watermark_is_max_regardless_of_order() {
    let subs = vec![sub("did:a", 1)];
    let newest_first = vec![post("did:a", 300, 5), post("did:a", 200, 0), post("did:a", 250, 9)];
    let oldest_first = vec![post("did:a", 200, 0), post("did:a", 250, 9), post("did:a", 300, 5)];
    let p1 = plan_cycle(100, &newest_first, &subs);
    let p2 = plan_cycle(100, &oldest_first, &subs);
    assert_eq!(p1.watermark, 301);
    assert_eq!(p2.watermark, 301);
    assert_eq!(persisted(&p1.actions), vec![301]);
    assert_eq!(persisted(&p2.actions), vec![201, 251, 301]);
    assert_eq!(deliveries(&p1.actions).len(), 3);
}

#[test]
fn watermark_never_decreases() {
    let subs = vec![sub("did:a", 1)];
    let feed = vec![post("did:a", 50, 0)];
    let plan = plan_cycle(100, &feed, &subs);
    assert!(plan.actions.is_empty());
    assert_eq!(plan.watermark, 100);
}

#[test]
fn post_at_watermark_second_is_not_new() {
    let subs = vec![sub("did:a", 1)];
    let plan = plan_cycle(100, &vec![post("did:a", 100, 0)], &subs);
    assert!(plan.actions.is_empty());
    let plan = plan_cycle(100, &vec![post("did:a", 100, 1)], &subs);
    assert_eq!(plan.watermark, 101);
}

#[test]
fn fan_out_to_every_subscribed_channel_once() {
    let subs = vec![sub("did:x", 1), sub("did:y", 9), sub("did:x", 2), sub("did:x", 3)];
    let plan = plan_cycle(0, &vec![post("did:x", 10, 0)], &subs);
    assert_eq!(deliveries(&plan.actions), vec![(0, vec![1, 2, 3])]);
}

#[test]
fn duplicate_subscription_delivers_once() {
    let subs = vec![sub("did:x", 1), sub("did:x", 1), sub("did:x", 2)];
    assert_eq!(channels_of(&subs, "did:x"), vec![1, 2]);
    assert!(channels_of(&subs, "did:z").is_empty());
}

#[test]
fn malformed_record_is_skipped() {
    let subs = vec![sub("did:a", 1)];
    let mut bad = post("did:a", 500, 0);
    bad.created_at = None;
    let mut out_of_range = post("did:a", 600, 0);
    out_of_range.created_at = Some(PostTime { secs: 600, nanos: 1_000_000_000 });
    let plan = plan_cycle(100, &vec![bad, out_of_range, post("did:a", 200, 0)], &subs);
    assert_eq!(deliveries(&plan.actions), vec![(2, vec![1])]);
    assert_eq!(plan.watermark, 201);
}

#[test]
fn unrenderable_post_does_not_move_watermark() {
    let subs = vec![sub("did:a", 1)];
    let mut bad = post("did:a", 500, 0);
    bad.uri = "at://did:other/app.bsky.feed.post/r".to_string();
    let plan = plan_cycle(100, &vec![bad], &subs);
    assert!(plan.actions.is_empty());
    assert_eq!(plan.watermark, 100);
}

#[test]
fn delivered_message_is_built_for_its_post() {
    let subs = vec![sub("did:a", 1)];
    let plan = plan_cycle(0, &vec![post("did:a", 7, 0)], &subs);
    match &plan.actions[0] {
        CycleAction::Deliver { message, .. } => {
            assert_eq!(message.post_url, "https://bsky.app/profile/did:a.handle/post/r7")
        }
        _ => panic!("expected a delivery"),
    }
}

#[test]
fn skipped_posts_are_reported() {
    let mut no_time = post("did:a", 500, 0);
    no_time.created_at = None;
    let mut bad_link = post("did:a", 600, 0);
    bad_link.uri = "https://example.com/p".to_string();
    let mut old_bad_link = post("did:a", 50, 0);
    old_bad_link.uri = "https://example.com/q".to_string();
    let feed = vec![post("did:a", 200, 0), no_time, old_bad_link, bad_link, post("did:a", 300, 0)];
    assert_eq!(skipped_posts(100, &feed), vec![1, 3]);
    assert!(skipped_posts(100, &vec![post("did:a", 200, 0)]).is_empty());
}
