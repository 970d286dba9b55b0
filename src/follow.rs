//! The follow controller: the remote follow of an account exists while some
//! channel subscribes to it. Each operation is split around its remote call,
//! which the caller makes between the two halves.
use vstd::prelude::*;
use crate::store::{
    Follow, Subscription, SubscriptionStore, binds, follow_uri_is, followed, has_binding,
    rows_consistent, rows_wf, subscribed, without_binding, without_follow, not_for, unbound,
};

verus! {

/// Why a subscription could not be recorded.
#[derive(Clone, Copy, Debug, PartialEq, Eq)]
pub enum FollowError {
    /// The account is not followed and no remote follow was created for it.
    MissingRemoteFollow,
}

/// What the caller does once a channel's subscription has been removed.
#[derive(Clone, Debug)]
pub enum UnfollowOutcome {
    /// The channel did not subscribe to the account.
    NotFollowed,
    /// The subscription is gone and other channels still subscribe to the account.
    Unsubscribed,
    /// The last subscription is gone: revoke the remote follow at this address,
    /// then commit.
    Revoke(String),
}

/// The follows after subscribing to `did`, given the remote follow created for it
/// (if any); `None` where the account is not followed and none was created.
pub open spec fn follows_after_follow(follows: Seq<Follow>, did: String, created: Option<String>) -> Option<
    Seq<Follow>,
> {
    if followed(follows, did@) {
        Some(follows)
    } else {
        match created {
            Some(uri) => Some(follows.push(Follow { did, remote_uri: uri })),
            None => None,
        }
    }
}

impl SubscriptionStore {
    /// Whether subscribing to `did` needs a remote follow to be created first.
    pub fn needs_remote_follow(&self, did: &str) -> (r: bool)
        ensures
            r == !self.has_follow(did@),
    {
        self.follow_index(did).is_none()
    }

    /// Records a channel's subscription to `did`. Where the account is not followed
    /// yet, `created` is the address of the remote follow just created for it.
    pub fn finish_follow(
        &mut self,
        did: String,
        handle: String,
        guild: Option<u64>,
        channel: u64,
        created: Option<String>,
    ) -> (r: Result<(), FollowError>)
        requires
            old(self).wf(),
        ensures
            final(self).wf(),
            old(self).consistent() ==> final(self).consistent(),
            match follows_after_follow(old(self).follows@, did, created) {
                Some(follows) => {
                    &&& r is Ok
                    &&& final(self).follows@ == follows
                    &&& final(self).subscriptions@ == old(self).subscriptions@.push(
                        Subscription { did, handle, guild, channel },
                    )
                },
                None => {
                    &&& r == Err::<(), FollowError>(FollowError::MissingRemoteFollow)
                    &&& final(self).follows@ == old(self).follows@
                    &&& final(self).subscriptions@ == old(self).subscriptions@
                },
            },
    {
        if self.needs_remote_follow(did.as_str()) {
            match created {
                Some(uri) => {
                    let ghost d = did;
                    let ghost u = uri;
                    self.upsert_follow(did.clone(), uri);
                    proof {
                        lemma_follow_pushed(old(self).follows@, old(self).subscriptions@, d, u);
                    }
                },
                None => return Err(FollowError::MissingRemoteFollow),
            }
        }
        let ghost f = self.follows@;
        let ghost s0 = self.subscriptions@;
        let ghost sub = Subscription { did, handle, guild, channel };
        proof {
            if old(self).consistent() {
                assert forall|d: Seq<char>| #[trigger] followed(f, d) && d != sub.did@ implies subscribed(
                    s0,
                    d,
                ) by {
                    assert(followed(old(self).follows@, d));
                }
            }
        }
        self.add_subscription(did, handle, guild, channel);
        proof {
            lemma_subscription_pushed(f, s0, sub);
        }
        Ok(())
    }

    /// Removes the subscriptions that bind `did` to `channel`, and tells the caller
    /// whether the remote follow must now be revoked.
    pub fn begin_unfollow(&mut self, did: &str, channel: u64) -> (r: UnfollowOutcome)
        requires
            old(self).wf(),
        ensures
            final(self).wf(),
            final(self).follows@ == old(self).follows@,
            final(self).subscriptions@ == without_binding(old(self).subscriptions@, did@, channel),
            (r is NotFollowed) == !has_binding(old(self).subscriptions@, did@, channel),
            (r is Revoke) == (has_binding(old(self).subscriptions@, did@, channel)
                && !final(self).has_subscription(did@) && old(self).has_follow(did@)),
            r is Revoke ==> follow_uri_is(old(self).follows@, did@, r->Revoke_0),
    {
        let ghost f = self.follows@;
        let ghost s0 = self.subscriptions@;
        let removed = self.remove_subscription(did, channel);
        proof {
            lemma_binding_removed(f, s0, did@, channel);
        }
        if !removed {
            return UnfollowOutcome::NotFollowed;
        }
        if self.has_other_subscriptions(did) {
            return UnfollowOutcome::Unsubscribed;
        }
        match self.get_follow(did) {
            Some(uri) => UnfollowOutcome::Revoke(uri),
            None => UnfollowOutcome::Unsubscribed,
        }
    }

    /// Removes the follow of `did` once its remote follow has been revoked, unless a
    /// channel subscribed to it again meanwhile. Tells whether a follow was removed.
    pub fn commit_unfollow(&mut self, did: &str) -> (r: bool)
        requires
            old(self).wf(),
        ensures
            final(self).wf(),
            final(self).subscriptions@ == old(self).subscriptions@,
            !old(self).has_subscription(did@) ==> final(self).follows@ == without_follow(
                old(self).follows@,
                did@,
            ) && r == old(self).has_follow(did@),
            old(self).has_subscription(did@) ==> final(self).follows@ == old(self).follows@ && !r,
    {
        if self.has_other_subscriptions(did) {
            return false;
        }
        let ghost f = self.follows@;
        let ghost s0 = self.subscriptions@;
        let removed = self.remove_follow_if_present(did);
        proof {
            lemma_follow_dropped(f, s0, did@);
        }
        removed.is_some()
    }
}

/// Adding the follow of an account that had none keeps the rows well formed.
proof fn lemma_follow_pushed(follows: Seq<Follow>, subs: Seq<Subscription>, did: String, uri: String)
    requires
        rows_wf(follows, subs),
        !followed(follows, did@),
    ensures
        rows_wf(follows.push(Follow { did, remote_uri: uri }), subs),
        followed(follows.push(Follow { did, remote_uri: uri }), did@),
        forall|d: Seq<char>| #[trigger]
            followed(follows.push(Follow { did, remote_uri: uri }), d) ==> followed(follows, d)
                || d == did@,
{
    let f2 = follows.push(Follow { did, remote_uri: uri });
    assert forall|i: int, j: int| 0 <= i < j < f2.len() implies (#[trigger] f2[i]).did@
        != (#[trigger] f2[j]).did@ by {
        if j == follows.len() {
            assert(f2[i] == follows[i]);
        } else {
            assert(f2[i] == follows[i] && f2[j] == follows[j]);
        }
    }
    assert forall|d: Seq<char>| #[trigger] subscribed(subs, d) implies followed(f2, d) by {
        let i = choose|i: int| 0 <= i < follows.len() && (#[trigger] follows[i]).did@ == d;
        assert(f2[i] == follows[i]);
    }
    assert(f2[follows.len() as int].did@ == did@);
    assert forall|d: Seq<char>| #[trigger] followed(f2, d) implies followed(follows, d) || d == did@ by {
        let i = choose|i: int| 0 <= i < f2.len() && (#[trigger] f2[i]).did@ == d;
        if i < follows.len() {
            assert(f2[i] == follows[i]);
        }
    }
}

/// Adding a subscription to a followed account keeps the rows well formed, and
/// consistent where they were.
proof fn lemma_subscription_pushed(follows: Seq<Follow>, subs: Seq<Subscription>, sub: Subscription)
    requires
        rows_wf(follows, subs),
        followed(follows, sub.did@),
    ensures
        rows_wf(follows, subs.push(sub)),
        (forall|d: Seq<char>| #[trigger] followed(follows, d) && d != sub.did@ ==> subscribed(subs, d))
            ==> rows_consistent(follows, subs.push(sub)),
{
    let s2 = subs.push(sub);
    assert forall|d: Seq<char>| #[trigger] subscribed(s2, d) implies followed(follows, d) by {
        let i = choose|i: int| 0 <= i < s2.len() && (#[trigger] s2[i]).did@ == d;
        if i < subs.len() {
            assert(s2[i] == subs[i]);
            assert(subscribed(subs, d));
        }
    }
    assert forall|d: Seq<char>| subscribed(subs, d) implies #[trigger] subscribed(s2, d) by {
        let i = choose|i: int| 0 <= i < subs.len() && (#[trigger] subs[i]).did@ == d;
        assert(s2[i] == subs[i]);
    }
    assert(s2[subs.len() as int] == sub);
    assert(subscribed(s2, sub.did@));
}

/// Removing subscriptions keeps the rows well formed; an account stays subscribed
/// exactly where a subscription of it to another channel remains.
proof fn lemma_binding_removed(follows: Seq<Follow>, subs: Seq<Subscription>, did: Seq<char>, channel: u64)
    requires
        rows_wf(follows, subs),
    ensures
        rows_wf(follows, without_binding(subs, did, channel)),
        forall|d: Seq<char>| #[trigger] subscribed(without_binding(subs, did, channel), d)
            ==> subscribed(subs, d),
        forall|d: Seq<char>|
            d != did ==> (#[trigger] subscribed(without_binding(subs, did, channel), d)
                == subscribed(subs, d)),
{
    broadcast use vstd::seq_lib::group_filter_ensures;
    let rest = without_binding(subs, did, channel);
    assert forall|d: Seq<char>| #[trigger] subscribed(rest, d) implies subscribed(subs, d) by {
        let i = choose|i: int| 0 <= i < rest.len() && (#[trigger] rest[i]).did@ == d;
        assert(rest.contains(rest[i]));
        subs.lemma_filter_contains_rev(unbound(did, channel), rest[i]);
    }
    assert forall|d: Seq<char>| d != did && subscribed(subs, d) implies #[trigger] subscribed(
        rest,
        d,
    ) by {
        let i = choose|i: int| 0 <= i < subs.len() && (#[trigger] subs[i]).did@ == d;
        assert(rest.contains(subs[i]));
    }
}

/// Removing the follow of an account that no channel subscribes to keeps the rows
/// well formed, and consistent where they were apart from that account.
proof fn lemma_follow_dropped(follows: Seq<Follow>, subs: Seq<Subscription>, did: Seq<char>)
    requires
        rows_wf(follows, subs),
        !subscribed(subs, did),
    ensures
        rows_wf(without_follow(follows, did), subs),
        !followed(without_follow(follows, did), did),
        forall|d: Seq<char>|
            d != did ==> (#[trigger] followed(without_follow(follows, did), d) == followed(
                follows,
                d,
            )),
{
    broadcast use vstd::seq_lib::group_filter_ensures;
    let rest = without_follow(follows, did);
    assert forall|i: int, j: int| 0 <= i < j < rest.len() implies (#[trigger] rest[i]).did@
        != (#[trigger] rest[j]).did@ by {
        lemma_filter_order(follows, not_for(did), i, j);
    }
    assert forall|d: Seq<char>| d != did && followed(follows, d) implies #[trigger] followed(
        rest,
        d,
    ) by {
        let i = choose|i: int| 0 <= i < follows.len() && (#[trigger] follows[i]).did@ == d;
        assert(rest.contains(follows[i]));
    }
    assert forall|d: Seq<char>| #[trigger] followed(rest, d) implies followed(follows, d) && d != did by {
        let i = choose|i: int| 0 <= i < rest.len() && (#[trigger] rest[i]).did@ == d;
        assert(rest.contains(rest[i]));
        follows.lemma_filter_contains_rev(not_for(did), rest[i]);
    }
    assert forall|d: Seq<char>| #[trigger] subscribed(subs, d) implies followed(rest, d) by {
        assert(followed(follows, d));
    }
}

/// Two positions of a filtered sequence come from two distinct positions, in order.
proof fn lemma_filter_order(s: Seq<Follow>, pred: spec_fn(Follow) -> bool, i: int, j: int)
    requires
        0 <= i < j < s.filter(pred).len(),
    ensures
        exists|a: int, b: int|
            0 <= a < b < s.len() && s[a] == s.filter(pred)[i] && s[b] == s.filter(pred)[j],
    decreases s.len(),
{
    reveal(Seq::filter);
    broadcast use vstd::seq_lib::group_filter_ensures;
    let front = s.drop_last();
    let ff = front.filter(pred);
    if pred(s.last()) && j == ff.len() {
        assert(s.filter(pred)[j] == s.last());
        assert(s.filter(pred)[i] == ff[i]);
        assert(ff.contains(ff[i]));
        front.lemma_filter_contains_rev(pred, ff[i]);
        let a = choose|a: int| 0 <= a < front.len() && front[a] == s.filter(pred)[i];
        assert(s[a] == front[a]);
        assert(s[s.len() - 1] == s.last());
    } else {
        assert(s.filter(pred)[i] == ff[i] && s.filter(pred)[j] == ff[j]);
        lemma_filter_order(front, pred, i, j);
        let (a, b) = choose|a: int, b: int|
            0 <= a < b < front.len() && front[a] == ff[i] && front[b] == ff[j];
        assert(s[a] == front[a] && s[b] == front[b]);
    }
}

/// Removing the last subscription of a followed account leaves exactly one remote
/// follow to revoke, and once it is committed the account has no follow left and the
/// store is consistent again. Removing a subscription that is not the last leaves
/// the follows as they are, and the store consistent.
pub proof fn lemma_orphan_cleanup(
    follows: Seq<Follow>,
    subs: Seq<Subscription>,
    did: Seq<char>,
    channel: u64,
)
    requires
        rows_consistent(follows, subs),
        has_binding(subs, did, channel),
    ensures
        !subscribed(without_binding(subs, did, channel), did) ==> {
            &&& followed(follows, did)
            &&& exists|uri: String| follow_uri_is(follows, did, uri)
            &&& forall|u1: String, u2: String|
                follow_uri_is(follows, did, u1) && follow_uri_is(follows, did, u2) ==> u1 == u2
            &&& !followed(without_follow(follows, did), did)
            &&& rows_consistent(without_follow(follows, did), without_binding(subs, did, channel))
        },
        subscribed(without_binding(subs, did, channel), did) ==> rows_consistent(
            follows,
            without_binding(subs, did, channel),
        ),
{
    let rest = without_binding(subs, did, channel);
    lemma_binding_removed(follows, subs, did, channel);
    let k = choose|k: int| 0 <= k < subs.len() && binds(#[trigger] subs[k], did, channel);
    assert(subscribed(subs, did)) by {
        assert(subs[k].did@ == did);
    }
    assert(followed(follows, did));
    let i = choose|i: int| 0 <= i < follows.len() && (#[trigger] follows[i]).did@ == did;
    assert(follow_uri_is(follows, did, follows[i].remote_uri));
    assert forall|u1: String, u2: String|
        follow_uri_is(follows, did, u1) && follow_uri_is(follows, did, u2) implies u1 == u2 by {
        let a = choose|a: int|
            0 <= a < follows.len() && (#[trigger] follows[a]).did@ == did && follows[a].remote_uri == u1;
        let b = choose|b: int|
            0 <= b < follows.len() && (#[trigger] follows[b]).did@ == did && follows[b].remote_uri == u2;
        if a < b {
            assert(follows[a].did@ != follows[b].did@);
        } else if b < a {
            assert(follows[b].did@ != follows[a].did@);
        }
    }
    if !subscribed(rest, did) {
        lemma_follow_dropped(follows, rest, did);
        let f2 = without_follow(follows, did);
        assert forall|d: Seq<char>| #[trigger] followed(f2, d) implies subscribed(rest, d) by {
            assert(followed(follows, d));
            assert(subscribed(subs, d));
        }
    } else {
        assert forall|d: Seq<char>| #[trigger] followed(follows, d) implies subscribed(rest, d) by {
            assert(subscribed(subs, d));
        }
    }
}

/// Following an account that is already followed, from another channel, needs no
/// remote follow, leaves the follows as they are, whatever remote address is at
/// hand, and adds the channel's subscription with the store still consistent.
pub proof fn lemma_no_redundant_follow(
    follows: Seq<Follow>,
    subs: Seq<Subscription>,
    did: String,
    handle: String,
    guild: Option<u64>,
    channel: u64,
    created: Option<String>,
)
    requires
        rows_consistent(follows, subs),
        followed(follows, did@),
    ensures
        follows_after_follow(follows, did, created) == Some(follows),
        rows_consistent(follows, subs.push(Subscription { did, handle, guild, channel })),
{
    let sub = Subscription { did, handle, guild, channel };
    lemma_subscription_pushed(follows, subs, sub);
}

} // verus!
