//! One poll cycle: which timeline posts are new against the watermark, which
//! channels each one goes to, and where the watermark moves after each post.
use vstd::prelude::*;
use crate::post::{FeedPost, PostTime, NANOS_PER_SEC, post_time};
use crate::render::{Notification, extract_rkey, make_message, renderable, renders, record_key_of};
use crate::store::{Subscription, has_binding, binds};
use crate::text::same_text;

verus! {

/// Whether `t` is later than the watermark `w`, a whole second.
pub open spec fn is_new(t: PostTime, w: i64) -> bool {
    t.instant() > w * NANOS_PER_SEC
}

/// The whole second that follows `t`: the watermark that marks `t` as delivered.
pub open spec fn next_second(t: PostTime) -> int {
    t.secs + 1
}

/// Whether post `p` is delivered in a cycle that started at watermark `start`: its
/// time is readable and newer than `start`, and a notification can be built for it.
pub open spec fn qualifies(start: i64, p: FeedPost) -> bool {
    &&& post_time(p) is Some
    &&& is_new(post_time(p)->0, start)
    &&& renderable(p)
}

/// Whether post `p` moves the watermark on from `high`.
pub open spec fn advances(start: i64, high: i64, p: FeedPost) -> bool {
    qualifies(start, p) && next_second(post_time(p)->0) > high
}

/// The watermark after the cycle that started at `start` has handled `feed`.
pub open spec fn high_after(start: i64, feed: Seq<FeedPost>) -> i64
    decreases feed.len(),
{
    if feed.len() == 0 {
        start
    } else {
        let h = high_after(start, feed.drop_last());
        if advances(start, h, feed.last()) {
            next_second(post_time(feed.last())->0) as i64
        } else {
            h
        }
    }
}

/// The distinct channels subscribed to `did`, in the order of their first subscription.
pub open spec fn subscribed_channels(subs: Seq<Subscription>, did: Seq<char>) -> Seq<u64>
    decreases subs.len(),
{
    if subs.len() == 0 {
        Seq::empty()
    } else {
        let prev = subscribed_channels(subs.drop_last(), did);
        let s = subs.last();
        if s.did@ == did && !prev.contains(s.channel) {
            prev.push(s.channel)
        } else {
            prev
        }
    }
}

/// One effect of a cycle, as the laws speak of it.
pub enum Step {
    /// Send the notification of the post at this position to these channels.
    Deliver { post: int, channels: Seq<u64> },
    /// Store the watermark.
    Persist { watermark: i64 },
}

/// What the cycle does for the post `p` at position `i`, the watermark being `high`.
pub open spec fn post_steps(start: i64, high: i64, i: int, p: FeedPost, subs: Seq<Subscription>) -> Seq<
    Step,
> {
    if qualifies(start, p) {
        let deliver = seq![Step::Deliver { post: i, channels: subscribed_channels(subs, p.author.did@) }];
        if advances(start, high, p) {
            deliver.push(Step::Persist { watermark: next_second(post_time(p)->0) as i64 })
        } else {
            deliver
        }
    } else {
        Seq::empty()
    }
}

/// The effects of the cycle that started at watermark `start`, in order.
pub open spec fn cycle_steps(start: i64, feed: Seq<FeedPost>, subs: Seq<Subscription>) -> Seq<Step>
    decreases feed.len(),
{
    if feed.len() == 0 {
        Seq::empty()
    } else {
        let front = feed.drop_last();
        cycle_steps(start, front, subs) + post_steps(
            start,
            high_after(start, front),
            feed.len() - 1,
            feed.last(),
            subs,
        )
    }
}

/// One effect of a cycle, for the caller to perform in order.
#[derive(Debug)]
pub enum CycleAction {
    /// Send `message`, built for the post at position `post`, to each of `channels`.
    /// A failed send leaves the other channels and the cycle to go on.
    Deliver { post: usize, channels: Vec<u64>, message: Notification },
    /// Store `watermark` before going on.
    Persist { watermark: i64 },
}

impl CycleAction {
    /// The effect that this action performs.
    pub open spec fn step(self) -> Step {
        match self {
            CycleAction::Deliver { post, channels, message } => Step::Deliver {
                post: post as int,
                channels: channels@,
            },
            CycleAction::Persist { watermark } => Step::Persist { watermark },
        }
    }
}

/// What a cycle does, and the watermark it leaves.
#[derive(Debug)]
pub struct CyclePlan {
    pub actions: Vec<CycleAction>,
    pub watermark: i64,
}

/// Whether `t` is later than the watermark `w`.
fn newer_than(t: PostTime, w: i64) -> (r: bool)
    requires
        t.wf(),
    ensures
        r == is_new(t, w),
{
    proof {
        assert(t.secs > w ==> t.secs * NANOS_PER_SEC >= (w + 1) * NANOS_PER_SEC) by (nonlinear_arith);
        assert(t.secs < w ==> (t.secs + 1) * NANOS_PER_SEC <= w * NANOS_PER_SEC) by (nonlinear_arith);
    }
    t.secs > w || (t.secs == w && t.nanos > 0)
}

/// Whether post `p` fails in a cycle that started at watermark `start`: its record
/// holds no usable time, or it is new and no notification can be built for it.
pub open spec fn skipped(start: i64, p: FeedPost) -> bool {
    post_time(p) is None || (is_new(post_time(p)->0, start) && !renderable(p))
}

/// The positions of the posts of `feed` that fail in the cycle that starts at
/// `watermark`, in order, for the caller to report.
pub fn skipped_posts(watermark: i64, feed: &Vec<FeedPost>) -> (r: Vec<usize>)
    ensures
        forall|k: int| 0 <= k < r@.len() ==> #[trigger] r@[k] < feed@.len() && skipped(watermark, feed@[r@[k] as int]),
        forall|k1: int, k2: int| 0 <= k1 < k2 < r@.len() ==> #[trigger] r@[k1] < #[trigger] r@[k2],
        forall|i: int| 0 <= i < feed@.len() && skipped(watermark, #[trigger] feed@[i]) ==> r@.contains(i as usize),
{
    let mut r: Vec<usize> = Vec::new();
    let mut i: usize = 0;
    while i < feed.len()
        invariant
            i <= feed@.len(),
            forall|k: int| 0 <= k < r@.len() ==> #[trigger] r@[k] < i && skipped(watermark, feed@[r@[k] as int]),
            forall|k1: int, k2: int| 0 <= k1 < k2 < r@.len() ==> #[trigger] r@[k1] < #[trigger] r@[k2],
            forall|j: int| 0 <= j < i && skipped(watermark, #[trigger] feed@[j]) ==> r@.contains(j as usize),
        decreases feed@.len() - i,
    {
        let p = &feed[i];
        let fails = match p.created_at {
            None => true,
            Some(t) => {
                if t.nanos < NANOS_PER_SEC && t.secs < i64::MAX {
                    newer_than(t, watermark) && extract_rkey(p.uri.as_str(), p.author.did.as_str()).is_none()
                } else {
                    true
                }
            },
        };
        if fails {
            let ghost before = r@;
            r.push(i);
            proof {
                assert forall|j: int| 0 <= j <= i && skipped(watermark, #[trigger] feed@[j]) implies r@.contains(j as usize) by {
                    if j < i {
                        let k = choose|k: int| 0 <= k < before.len() && before[k] == j as usize;
                        assert(r@[k] == j as usize);
                    } else {
                        assert(r@[before.len() as int] == i);
                    }
                }
            }
        }
        i = i + 1;
    }
    r
}

/// The distinct channels subscribed to `did`, in the order of their first subscription.
pub fn channels_of(subs: &Vec<Subscription>, did: &str) -> (r: Vec<u64>)
    ensures
        r@ == subscribed_channels(subs@, did@),
{
    let mut r: Vec<u64> = Vec::new();
    let mut i: usize = 0;
    while i < subs.len()
        invariant
            i <= subs@.len(),
            r@ == subscribed_channels(subs@.subrange(0, i as int), did@),
        decreases subs@.len() - i,
    {
        proof {
            assert(subs@.subrange(0, i + 1).drop_last() =~= subs@.subrange(0, i as int));
        }
        let s = &subs[i];
        if same_text(s.did.as_str(), did) && !contains(&r, s.channel) {
            r.push(s.channel);
        }
        i = i + 1;
    }
    proof {
        assert(subs@.subrange(0, subs@.len() as int) =~= subs@);
    }
    r
}

/// Whether `v` holds `x`.
fn contains(v: &Vec<u64>, x: u64) -> (r: bool)
    ensures
        r == v@.contains(x),
{
    let mut i: usize = 0;
    while i < v.len()
        invariant
            i <= v@.len(),
            forall|j: int| 0 <= j < i ==> v@[j] != x,
        decreases v@.len() - i,
    {
        if v[i] == x {
            return true;
        }
        i = i + 1;
    }
    false
}

/// Plans the cycle over `feed`, the timeline in the order the service returned it,
/// against the stored watermark and the current subscriptions.
pub fn plan_cycle(watermark: i64, feed: &Vec<FeedPost>, subs: &Vec<Subscription>) -> (r: CyclePlan)
    ensures
        r.actions@.map_values(|a: CycleAction| a.step()) == cycle_steps(watermark, feed@, subs@),
        r.watermark == high_after(watermark, feed@),
        forall|k: int|
            0 <= k < r.actions@.len() ==> match #[trigger] r.actions@[k] {
                CycleAction::Deliver { post, channels, message } => post < feed@.len() && renders(
                    feed@[post as int],
                    record_key_of(feed@[post as int].uri@, feed@[post as int].author.did@)->0,
                    message,
                ),
                CycleAction::Persist { .. } => true,
            },
{
    let mut actions: Vec<CycleAction> = Vec::new();
    let mut high = watermark;
    let mut i: usize = 0;
    while i < feed.len()
        invariant
            i <= feed@.len(),
            high == high_after(watermark, feed@.subrange(0, i as int)),
            actions@.map_values(|a: CycleAction| a.step()) == cycle_steps(
                watermark,
                feed@.subrange(0, i as int),
                subs@,
            ),
            forall|k: int|
                0 <= k < actions@.len() ==> match #[trigger] actions@[k] {
                    CycleAction::Deliver { post, channels, message } => post < feed@.len()
                        && renders(
                        feed@[post as int],
                        record_key_of(feed@[post as int].uri@, feed@[post as int].author.did@)->0,
                        message,
                    ),
                    CycleAction::Persist { .. } => true,
                },
        decreases feed@.len() - i,
    {
        let ghost before = actions@;
        let ghost front = feed@.subrange(0, i as int);
        proof {
            assert(feed@.subrange(0, i + 1).drop_last() =~= front);
            assert(feed@.subrange(0, i + 1).last() == feed@[i as int]);
        }
        let p = &feed[i];
        if let Some(t) = p.created_at {
            if t.nanos < NANOS_PER_SEC && t.secs < i64::MAX && newer_than(t, watermark) {
                if let Some(message) = make_message(p) {
                    let channels = channels_of(subs, p.author.did.as_str());
                    actions.push(CycleAction::Deliver { post: i, channels, message });
                    let next = t.secs + 1;
                    if next > high {
                        actions.push(CycleAction::Persist { watermark: next });
                        high = next;
                    }
                }
            }
        }
        proof {
            assert(actions@.map_values(|a: CycleAction| a.step()) =~= before.map_values(
                |a: CycleAction| a.step(),
            ) + post_steps(watermark, high_after(watermark, front), i as int, feed@[i as int], subs@));
        }
        i = i + 1;
    }
    proof {
        assert(feed@.subrange(0, feed@.len() as int) =~= feed@);
    }
    CyclePlan { actions, watermark: high }
}

/// After a cycle the watermark is at least where it started, and it is the largest of
/// the start and the next whole second of each delivered post, whatever the order of
/// the feed: no delivered post lies past it, and it is the start or one of them.
pub proof fn lemma_watermark_is_max(start: i64, feed: Seq<FeedPost>)
    ensures
        high_after(start, feed) >= start,
        forall|i: int|
            0 <= i < feed.len() && qualifies(start, #[trigger] feed[i]) ==> next_second(
                post_time(feed[i])->0,
            ) <= high_after(start, feed),
        high_after(start, feed) == start || exists|i: int|
            0 <= i < feed.len() && qualifies(start, #[trigger] feed[i]) && high_after(start, feed)
                == next_second(post_time(feed[i])->0),
    decreases feed.len(),
{
    if feed.len() > 0 {
        let front = feed.drop_last();
        lemma_watermark_is_max(start, front);
        assert forall|i: int| 0 <= i < front.len() implies feed[i] == #[trigger] front[i] by {}
        let last = feed.len() - 1;
        assert(feed[last] == feed.last());
        let h = high_after(start, front);
        assert(high_after(start, feed) >= h);
        assert forall|i: int|
            0 <= i < feed.len() && qualifies(start, #[trigger] feed[i]) implies next_second(
                post_time(feed[i])->0,
            ) <= high_after(start, feed) by {
            if i < last {
                assert(qualifies(start, front[i]));
            }
        }
        if high_after(start, front) != start && !advances(start, high_after(start, front), feed.last()) {
            let i = choose|i: int|
                0 <= i < front.len() && qualifies(start, #[trigger] front[i]) && high_after(start, front)
                    == next_second(post_time(front[i])->0);
            assert(feed[i] == front[i]);
        }
    }
}

/// The stored watermarks of one cycle rise strictly, each above the start and none
/// past the watermark the cycle leaves.
pub proof fn lemma_persisted_watermarks_rise(start: i64, feed: Seq<FeedPost>, subs: Seq<Subscription>)
    ensures
        forall|k: int|
            0 <= k < cycle_steps(start, feed, subs).len() && (#[trigger] cycle_steps(
                start,
                feed,
                subs,
            )[k]) is Persist ==> start < cycle_steps(start, feed, subs)[k]->Persist_watermark
                <= high_after(start, feed),
        forall|k1: int, k2: int|
            0 <= k1 < k2 < cycle_steps(start, feed, subs).len() && (#[trigger] cycle_steps(
                start,
                feed,
                subs,
            )[k1]) is Persist && (#[trigger] cycle_steps(start, feed, subs)[k2]) is Persist
                ==> cycle_steps(start, feed, subs)[k1]->Persist_watermark < cycle_steps(
                start,
                feed,
                subs,
            )[k2]->Persist_watermark,
    decreases feed.len(),
{
    if feed.len() > 0 {
        let front = feed.drop_last();
        lemma_persisted_watermarks_rise(start, front, subs);
        lemma_watermark_is_max(start, front);
        let h = high_after(start, front);
        let a = cycle_steps(start, front, subs);
        let b = post_steps(start, h, feed.len() - 1, feed.last(), subs);
        let all = cycle_steps(start, feed, subs);
        assert(all == a + b);
        assert forall|k: int| 0 <= k < all.len() && (#[trigger] all[k]) is Persist implies start
            < all[k]->Persist_watermark <= high_after(start, feed) by {
            if k < a.len() {
                assert(all[k] == a[k]);
            } else {
                assert(all[k] == b[k - a.len()]);
            }
        }
        assert forall|k1: int, k2: int|
            0 <= k1 < k2 < all.len() && (#[trigger] all[k1]) is Persist && (#[trigger] all[k2]) is Persist
                implies all[k1]->Persist_watermark < all[k2]->Persist_watermark by {
            if k2 < a.len() {
                assert(all[k1] == a[k1] && all[k2] == a[k2]);
            } else if k1 < a.len() {
                assert(all[k1] == a[k1]);
                assert(all[k2] == b[k2 - a.len()]);
            } else {
                assert(all[k1] == b[k1 - a.len()] && all[k2] == b[k2 - a.len()]);
            }
        }
    }
}

/// A cycle in which no post qualifies does nothing and leaves the watermark as it was.
proof fn lemma_quiet_cycle(w: i64, feed: Seq<FeedPost>, subs: Seq<Subscription>)
    requires
        forall|i: int| 0 <= i < feed.len() ==> !qualifies(w, #[trigger] feed[i]),
    ensures
        cycle_steps(w, feed, subs) == Seq::<Step>::empty(),
        high_after(w, feed) == w,
    decreases feed.len(),
{
    if feed.len() > 0 {
        let front = feed.drop_last();
        assert forall|i: int| 0 <= i < front.len() implies !qualifies(w, #[trigger] front[i]) by {
            assert(feed[i] == front[i]);
        }
        lemma_quiet_cycle(w, front, subs);
        assert(feed[feed.len() - 1] == feed.last());
        assert(cycle_steps(w, feed, subs) =~= Seq::<Step>::empty());
    }
}

/// Replaying the same timeline against the watermark that its cycle left delivers
/// nothing and leaves that watermark as it is.
pub proof fn lemma_replay_delivers_nothing(start: i64, feed: Seq<FeedPost>, subs: Seq<Subscription>)
    ensures
        cycle_steps(high_after(start, feed), feed, subs) == Seq::<Step>::empty(),
        high_after(high_after(start, feed), feed) == high_after(start, feed),
{
    let h = high_after(start, feed);
    lemma_watermark_is_max(start, feed);
    assert forall|i: int| 0 <= i < feed.len() implies !qualifies(h, #[trigger] feed[i]) by {
        if post_time(feed[i]) is Some && renderable(feed[i]) {
            let t = post_time(feed[i])->0;
            if is_new(t, start) {
                assert(qualifies(start, feed[i]));
                assert(t.secs + 1 <= h);
                assert((t.secs + 1) * NANOS_PER_SEC <= h * NANOS_PER_SEC) by (nonlinear_arith)
                    requires t.secs + 1 <= h;
            } else {
                assert(start * NANOS_PER_SEC <= h * NANOS_PER_SEC) by (nonlinear_arith)
                    requires start <= h;
            }
        }
    }
    lemma_quiet_cycle(h, feed, subs);
}

/// The channels a post of `did` goes to are each channel subscribed to `did`, each
/// exactly once.
pub proof fn lemma_fan_out(subs: Seq<Subscription>, did: Seq<char>)
    ensures
        subscribed_channels(subs, did).no_duplicates(),
        forall|c: u64| #[trigger] subscribed_channels(subs, did).contains(c) <==> has_binding(subs, did, c),
    decreases subs.len(),
{
    if subs.len() > 0 {
        let front = subs.drop_last();
        lemma_fan_out(front, did);
        let prev = subscribed_channels(front, did);
        let cur = subscribed_channels(subs, did);
        assert forall|c: u64| cur.contains(c) <==> has_binding(subs, did, c) by {
            if cur.contains(c) {
                if prev.contains(c) {
                    let i = choose|i: int| 0 <= i < front.len() && binds(#[trigger] front[i], did, c);
                    assert(subs[i] == front[i]);
                } else {
                    let j = choose|j: int| 0 <= j < cur.len() && cur[j] == c;
                    assert(j == prev.len());
                    assert(binds(subs[subs.len() - 1], did, c));
                }
            }
            if has_binding(subs, did, c) {
                let i = choose|i: int| 0 <= i < subs.len() && binds(#[trigger] subs[i], did, c);
                if i < front.len() {
                    assert(subs[i] == front[i]);
                    assert(has_binding(front, did, c));
                    assert(prev.contains(c));
                    let j = choose|j: int| 0 <= j < prev.len() && prev[j] == c;
                    assert(cur[j] == c);
                } else if !prev.contains(c) {
                    assert(cur[prev.len() as int] == c);
                } else {
                    let j = choose|j: int| 0 <= j < prev.len() && prev[j] == c;
                    assert(cur[j] == c);
                }
            }
        }
    }
}

/// In one cycle a post is delivered in exactly one step when it qualifies and in
/// none otherwise, and that step goes to the channels subscribed to its author.
pub proof fn lemma_delivered_once(start: i64, feed: Seq<FeedPost>, subs: Seq<Subscription>, i: int)
    requires
        0 <= i < feed.len(),
    ensures
        forall|k: int|
            0 <= k < cycle_steps(start, feed, subs).len() && (#[trigger] cycle_steps(start, feed, subs)[k])
                is Deliver && cycle_steps(start, feed, subs)[k]->Deliver_post == i ==> qualifies(
                start,
                feed[i],
            ) && cycle_steps(start, feed, subs)[k]->Deliver_channels == subscribed_channels(
                subs,
                feed[i].author.did@,
            ),
        qualifies(start, feed[i]) ==> exists|k: int|
            0 <= k < cycle_steps(start, feed, subs).len() && (#[trigger] cycle_steps(start, feed, subs)[k])
                is Deliver && cycle_steps(start, feed, subs)[k]->Deliver_post == i,
        forall|k1: int, k2: int|
            0 <= k1 < cycle_steps(start, feed, subs).len() && 0 <= k2 < cycle_steps(
                start,
                feed,
                subs,
            ).len() && (#[trigger] cycle_steps(start, feed, subs)[k1]) is Deliver
                && (#[trigger] cycle_steps(start, feed, subs)[k2]) is Deliver && cycle_steps(
                start,
                feed,
                subs,
            )[k1]->Deliver_post == i && cycle_steps(start, feed, subs)[k2]->Deliver_post == i
                ==> k1 == k2,
    decreases feed.len(),
{
    let front = feed.drop_last();
    let last = feed.len() - 1;
    let a = cycle_steps(start, front, subs);
    let b = post_steps(start, high_after(start, front), last, feed.last(), subs);
    let all = cycle_steps(start, feed, subs);
    assert(all == a + b);
    assert(feed[last] == feed.last());
    lemma_front_posts(start, front, subs);
    if i < last {
        lemma_delivered_once(start, front, subs, i);
        assert(feed[i] == front[i]);
        assert forall|k: int| 0 <= k < all.len() && (#[trigger] all[k]) is Deliver && all[k]->Deliver_post == i
            implies k < a.len() && all[k] == a[k] by {
            if k >= a.len() {
                assert(all[k] == b[k - a.len()]);
            }
        }
        if qualifies(start, feed[i]) {
            let k = choose|k: int| 0 <= k < a.len() && (#[trigger] a[k]) is Deliver && a[k]->Deliver_post == i;
            assert(all[k] == a[k]);
        }
    } else {
        assert forall|k: int| 0 <= k < all.len() && (#[trigger] all[k]) is Deliver && all[k]->Deliver_post == i
            implies k == a.len() && qualifies(start, feed[i]) && all[k]->Deliver_channels
            == subscribed_channels(subs, feed[i].author.did@) by {
            if k < a.len() {
                assert(all[k] == a[k]);
            } else {
                assert(all[k] == b[k - a.len()]);
            }
        }
        if qualifies(start, feed[i]) {
            assert(all[a.len() as int] == b[0]);
        }
    }
}

/// The delivery steps of a cycle name positions of its feed.
proof fn lemma_front_posts(start: i64, feed: Seq<FeedPost>, subs: Seq<Subscription>)
    ensures
        forall|k: int|
            0 <= k < cycle_steps(start, feed, subs).len() && (#[trigger] cycle_steps(start, feed, subs)[k])
                is Deliver ==> 0 <= cycle_steps(start, feed, subs)[k]->Deliver_post < feed.len(),
    decreases feed.len(),
{
    if feed.len() > 0 {
        let front = feed.drop_last();
        lemma_front_posts(start, front, subs);
        let a = cycle_steps(start, front, subs);
        let b = post_steps(start, high_after(start, front), feed.len() - 1, feed.last(), subs);
        let all = cycle_steps(start, feed, subs);
        assert(all == a + b);
        assert forall|k: int| 0 <= k < all.len() && (#[trigger] all[k]) is Deliver implies 0
            <= all[k]->Deliver_post < feed.len() by {
            if k < a.len() {
                assert(all[k] == a[k]);
            } else {
                assert(all[k] == b[k - a.len()]);
            }
        }
    }
}

/// Two timelines that hold the same posts, in whatever order, leave the same watermark.
pub proof fn lemma_watermark_order_free(start: i64, feed1: Seq<FeedPost>, feed2: Seq<FeedPost>)
    requires
        feed1.to_multiset() == feed2.to_multiset(),
    ensures
        high_after(start, feed1) == high_after(start, feed2),
{
    lemma_watermark_bounded_by(start, feed1, feed2);
    lemma_watermark_bounded_by(start, feed2, feed1);
}

/// A timeline's watermark is no later than that of one holding the same posts.
proof fn lemma_watermark_bounded_by(start: i64, feed1: Seq<FeedPost>, feed2: Seq<FeedPost>)
    requires
        feed1.to_multiset() == feed2.to_multiset(),
    ensures
        high_after(start, feed1) <= high_after(start, feed2),
{
    broadcast use vstd::seq_lib::group_to_multiset_ensures;
    lemma_watermark_is_max(start, feed1);
    lemma_watermark_is_max(start, feed2);
    if high_after(start, feed1) != start {
        let i = choose|i: int|
            0 <= i < feed1.len() && qualifies(start, #[trigger] feed1[i]) && high_after(start, feed1)
                == next_second(post_time(feed1[i])->0);
        assert(feed1.contains(feed1[i]));
        assert(feed1.to_multiset().count(feed1[i]) > 0);
        assert(feed2.contains(feed1[i]));
        let j = choose|j: int| 0 <= j < feed2.len() && feed2[j] == feed1[i];
        assert(qualifies(start, feed2[j]));
    }
}

/// The deliveries among `steps`, each as the post of `feed` it names and its channels.
pub open spec fn delivered(steps: Seq<Step>, feed: Seq<FeedPost>) -> Seq<(FeedPost, Seq<u64>)>
    decreases steps.len(),
{
    if steps.len() == 0 {
        Seq::empty()
    } else {
        let prev = delivered(steps.drop_last(), feed);
        match steps.last() {
            Step::Deliver { post, channels } => prev.push((feed[post], channels)),
            Step::Persist { .. } => prev,
        }
    }
}

/// The qualifying posts of `feed`, in order, each with the channels of its author.
pub open spec fn qualified(start: i64, feed: Seq<FeedPost>, subs: Seq<Subscription>) -> Seq<
    (FeedPost, Seq<u64>),
>
    decreases feed.len(),
{
    if feed.len() == 0 {
        Seq::empty()
    } else {
        let prev = qualified(start, feed.drop_last(), subs);
        let p = feed.last();
        if qualifies(start, p) {
            prev.push((p, subscribed_channels(subs, p.author.did@)))
        } else {
            prev
        }
    }
}

proof fn lemma_delivered_append(a: Seq<Step>, b: Seq<Step>, feed: Seq<FeedPost>)
    ensures
        delivered(a + b, feed) == delivered(a, feed) + delivered(b, feed),
    decreases b.len(),
{
    if b.len() == 0 {
        assert(a + b =~= a);
        assert(delivered(a, feed) + delivered(b, feed) =~= delivered(a, feed));
    } else {
        lemma_delivered_append(a, b.drop_last(), feed);
        assert((a + b).drop_last() =~= a + b.drop_last());
        assert((a + b).last() == b.last());
        assert(delivered(a + b, feed) =~= delivered(a, feed) + delivered(b, feed));
    }
}

proof fn lemma_delivered_prefix(steps: Seq<Step>, front: Seq<FeedPost>, feed: Seq<FeedPost>)
    requires
        front.len() <= feed.len(),
        forall|i: int| 0 <= i < front.len() ==> front[i] == feed[i],
        forall|k: int| 0 <= k < steps.len() && (#[trigger] steps[k]) is Deliver ==> 0 <= steps[k]->Deliver_post
            < front.len(),
    ensures
        delivered(steps, feed) == delivered(steps, front),
    decreases steps.len(),
{
    if steps.len() > 0 {
        let s = steps.drop_last();
        assert forall|k: int| 0 <= k < s.len() && (#[trigger] s[k]) is Deliver implies 0 <= s[k]->Deliver_post
            < front.len() by {
            assert(s[k] == steps[k]);
        }
        lemma_delivered_prefix(s, front, feed);
        assert(steps.last() == steps[steps.len() - 1]);
    }
}

/// What a cycle delivers is each qualifying post, once, with its author's channels.
pub proof fn lemma_deliveries_are_qualified(start: i64, feed: Seq<FeedPost>, subs: Seq<Subscription>)
    ensures
        delivered(cycle_steps(start, feed, subs), feed) == qualified(start, feed, subs),
    decreases feed.len(),
{
    if feed.len() > 0 {
        let front = feed.drop_last();
        let a = cycle_steps(start, front, subs);
        let b = post_steps(start, high_after(start, front), feed.len() - 1, feed.last(), subs);
        lemma_deliveries_are_qualified(start, front, subs);
        lemma_front_posts(start, front, subs);
        lemma_delivered_append(a, b, feed);
        lemma_delivered_prefix(a, front, feed);
        assert(feed[feed.len() - 1] == feed.last());
        if qualifies(start, feed.last()) {
            let d = seq![Step::Deliver { post: feed.len() - 1, channels: subscribed_channels(subs, feed.last().author.did@) }];
            assert(d.drop_last() =~= Seq::<Step>::empty());
            assert(delivered(d.drop_last(), feed) == Seq::<(FeedPost, Seq<u64>)>::empty());
            assert(d.last() == Step::Deliver { post: feed.len() - 1, channels: subscribed_channels(subs, feed.last().author.did@) });
            assert(delivered(d, feed) =~= seq![(feed.last(), subscribed_channels(subs, feed.last().author.did@))]);
            if advances(start, high_after(start, front), feed.last()) {
                let pst = Step::Persist { watermark: next_second(post_time(feed.last())->0) as i64 };
                assert(b.drop_last() =~= d);
                assert(b.last() == pst);
                assert(delivered(b, feed) == delivered(d, feed));
            } else {
                assert(b == d);
            }
            assert(delivered(b, feed) =~= seq![(feed.last(), subscribed_channels(subs, feed.last().author.did@))]);
        } else {
            assert(delivered(b, feed) =~= Seq::<(FeedPost, Seq<u64>)>::empty());
        }
        assert(delivered(cycle_steps(start, feed, subs), feed) =~= qualified(start, feed, subs));
    }
}

proof fn lemma_qualified_count(start: i64, feed: Seq<FeedPost>, subs: Seq<Subscription>, x: (FeedPost, Seq<u64>))
    ensures
        qualified(start, feed, subs).to_multiset().count(x) == if qualifies(start, x.0) && x.1
            == subscribed_channels(subs, x.0.author.did@) {
            feed.to_multiset().count(x.0)
        } else {
            0
        },
    decreases feed.len(),
{
    broadcast use vstd::seq_lib::group_to_multiset_ensures;
    broadcast use vstd::multiset::group_multiset_axioms;
    if feed.len() == 0 {
        assert(qualified(start, feed, subs) =~= Seq::<(FeedPost, Seq<u64>)>::empty());
    } else {
        let front = feed.drop_last();
        lemma_qualified_count(start, front, subs, x);
        assert(front.push(feed.last()) =~= feed);
    }
}

/// Two timelines that hold the same posts, in whatever order, deliver the same posts
/// to the same channels.
pub proof fn lemma_deliveries_order_free(
    start: i64,
    feed1: Seq<FeedPost>,
    feed2: Seq<FeedPost>,
    subs: Seq<Subscription>,
)
    requires
        feed1.to_multiset() == feed2.to_multiset(),
    ensures
        delivered(cycle_steps(start, feed1, subs), feed1).to_multiset() == delivered(
            cycle_steps(start, feed2, subs),
            feed2,
        ).to_multiset(),
{
    lemma_deliveries_are_qualified(start, feed1, subs);
    lemma_deliveries_are_qualified(start, feed2, subs);
    assert forall|x: (FeedPost, Seq<u64>)|
        qualified(start, feed1, subs).to_multiset().count(x) == qualified(start, feed2, subs).to_multiset().count(x) by {
        lemma_qualified_count(start, feed1, subs, x);
        lemma_qualified_count(start, feed2, subs, x);
    }
    assert(qualified(start, feed1, subs).to_multiset() =~= qualified(start, feed2, subs).to_multiset());
}

} // verus!
