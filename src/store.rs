use vstd::prelude::*;
use crate::text::same_text;

verus! {

/// The remote follow edge held for one account.
#[derive(Clone, Debug)]
pub struct Follow {
    pub did: String,
    /// The service's address of the follow record, needed to revoke it.
    pub remote_uri: String,
}

/// One channel's subscription to an account.
#[derive(Clone, Debug)]
pub struct Subscription {
    pub did: String,
    /// The account's handle when it was subscribed, kept for display.
    pub handle: String,
    /// The guild of the channel; `None` for a direct channel.
    pub guild: Option<u64>,
    pub channel: u64,
}

impl Subscription {
    /// A copy of the subscription.
    pub fn duplicate(&self) -> (r: Subscription)
        ensures
            r == *self,
    {
        Subscription {
            did: self.did.clone(),
            handle: self.handle.clone(),
            guild: self.guild,
            channel: self.channel,
        }
    }
}

/// Whether subscription `s` binds account `did` to `channel`.
pub open spec fn binds(s: Subscription, did: Seq<char>, channel: u64) -> bool {
    s.did@ == did && s.channel == channel
}

/// Whether some subscription refers to `did`.
pub open spec fn subscribed(subs: Seq<Subscription>, did: Seq<char>) -> bool {
    exists|i: int| 0 <= i < subs.len() && (#[trigger] subs[i]).did@ == did
}

/// Whether some subscription binds `did` to `channel`.
pub open spec fn has_binding(subs: Seq<Subscription>, did: Seq<char>, channel: u64) -> bool {
    exists|i: int| 0 <= i < subs.len() && binds(#[trigger] subs[i], did, channel)
}

/// The subscriptions left once every binding of `did` to `channel` is removed.
pub open spec fn without_binding(subs: Seq<Subscription>, did: Seq<char>, channel: u64) -> Seq<
    Subscription,
> {
    subs.filter(unbound(did, channel))
}

/// Holds of the subscriptions that do not bind `did` to `channel`.
pub open spec fn unbound(did: Seq<char>, channel: u64) -> spec_fn(Subscription) -> bool {
    |s: Subscription| !binds(s, did, channel)
}

/// Whether a follow is recorded for `did`.
pub open spec fn followed(follows: Seq<Follow>, did: Seq<char>) -> bool {
    exists|i: int| 0 <= i < follows.len() && (#[trigger] follows[i]).did@ == did
}

/// Whether the follow recorded for `did` has the remote address `uri`.
pub open spec fn follow_uri_is(follows: Seq<Follow>, did: Seq<char>, uri: String) -> bool {
    exists|i: int|
        0 <= i < follows.len() && (#[trigger] follows[i]).did@ == did && follows[i].remote_uri == uri
}

/// The follows left once the one for `did` is removed.
pub open spec fn without_follow(follows: Seq<Follow>, did: Seq<char>) -> Seq<Follow> {
    follows.filter(not_for(did))
}

/// Holds of the follows of accounts other than `did`.
pub open spec fn not_for(did: Seq<char>) -> spec_fn(Follow) -> bool {
    |f: Follow| f.did@ != did
}

/// At most one follow per account, and every subscribed account is followed.
pub open spec fn rows_wf(follows: Seq<Follow>, subs: Seq<Subscription>) -> bool {
    &&& forall|i: int, j: int|
        0 <= i < j < follows.len() ==> (#[trigger] follows[i]).did@ != (#[trigger] follows[j]).did@
    &&& forall|d: Seq<char>| #[trigger] subscribed(subs, d) ==> followed(follows, d)
}

/// Well formed, and a follow exists for an account exactly when some channel subscribes to it.
pub open spec fn rows_consistent(follows: Seq<Follow>, subs: Seq<Subscription>) -> bool {
    &&& rows_wf(follows, subs)
    &&& forall|d: Seq<char>| #[trigger] followed(follows, d) ==> subscribed(subs, d)
}

/// The follows and the channel subscriptions.
#[derive(Debug)]
pub struct SubscriptionStore {
    pub follows: Vec<Follow>,
    pub subscriptions: Vec<Subscription>,
}

impl SubscriptionStore {
    /// Whether a follow is recorded for `did`.
    pub open spec fn has_follow(&self, did: Seq<char>) -> bool {
        followed(self.follows@, did)
    }

    /// Whether some channel subscribes to `did`.
    pub open spec fn has_subscription(&self, did: Seq<char>) -> bool {
        subscribed(self.subscriptions@, did)
    }

    /// At most one follow per account, and every subscribed account is followed.
    pub open spec fn wf(&self) -> bool {
        rows_wf(self.follows@, self.subscriptions@)
    }

    /// A follow exists for an account exactly when some channel subscribes to it.
    pub open spec fn consistent(&self) -> bool {
        rows_consistent(self.follows@, self.subscriptions@)
    }

    /// An empty store.
    pub fn new() -> (r: SubscriptionStore)
        ensures
            r.follows@.len() == 0,
            r.subscriptions@.len() == 0,
            r.consistent(),
    {
        SubscriptionStore { follows: Vec::new(), subscriptions: Vec::new() }
    }

    /// A store holding the given rows, where they are well formed.
    pub fn from_rows(follows: Vec<Follow>, subscriptions: Vec<Subscription>) -> (r: Option<SubscriptionStore>)
        ensures
            r is Some <==> rows_wf(follows@, subscriptions@),
            r is Some ==> r->0.follows@ == follows@ && r->0.subscriptions@ == subscriptions@,
    {
        let n = follows.len();
        let mut i: usize = 0;
        while i < n
            invariant
                n == follows@.len(),
                i <= n,
                forall|a: int, b: int|
                    0 <= a < i && a < b < n ==> (#[trigger] follows@[a]).did@ != (#[trigger] follows@[b]).did@,
            decreases n - i,
        {
            let mut j: usize = i + 1;
            while j < n
                invariant
                    n == follows@.len(),
                    i < n,
                    i + 1 <= j <= n,
                    forall|a: int, b: int|
                        0 <= a < i && a < b < n ==> (#[trigger] follows@[a]).did@ != (#[trigger] follows@[b]).did@,
                    forall|b: int| i < b < j ==> follows@[i as int].did@ != (#[trigger] follows@[b]).did@,
                decreases n - j,
            {
                if same_text(follows[i].did.as_str(), follows[j].did.as_str()) {
                    return None;
                }
                j = j + 1;
            }
            i = i + 1;
        }
        let store = SubscriptionStore { follows, subscriptions: Vec::new() };
        let mut k: usize = 0;
        while k < subscriptions.len()
            invariant
                k <= subscriptions@.len(),
                store.follows@ == follows@,
                forall|a: int| 0 <= a < k ==> followed(follows@, (#[trigger] subscriptions@[a]).did@),
            decreases subscriptions@.len() - k,
        {
            if store.follow_index(subscriptions[k].did.as_str()).is_none() {
                proof {
                    assert(subscribed(subscriptions@, subscriptions@[k as int].did@));
                }
                return None;
            }
            k = k + 1;
        }
        proof {
            assert forall|d: Seq<char>| #[trigger] subscribed(subscriptions@, d) implies followed(follows@, d) by {
                let a = choose|a: int| 0 <= a < subscriptions@.len() && (#[trigger] subscriptions@[a]).did@ == d;
            }
        }
        Some(SubscriptionStore { follows: store.follows, subscriptions })
    }

    /// The position of the follow recorded for `did`.
    pub(crate) fn follow_index(&self, did: &str) -> (r: Option<usize>)
        ensures
            r is Some <==> self.has_follow(did@),
            r is Some ==> r->0 < self.follows@.len() && self.follows@[r->0 as int].did@ == did@,
    {
        let mut i: usize = 0;
        while i < self.follows.len()
            invariant
                i <= self.follows@.len(),
                forall|j: int| 0 <= j < i ==> (#[trigger] self.follows@[j]).did@ != did@,
            decreases self.follows@.len() - i,
        {
            if same_text(self.follows[i].did.as_str(), did) {
                return Some(i);
            }
            i = i + 1;
        }
        None
    }

    /// The remote address of the follow recorded for `did`, if any.
    pub fn get_follow(&self, did: &str) -> (r: Option<String>)
        requires
            self.wf(),
        ensures
            r is Some <==> self.has_follow(did@),
            r is Some ==> follow_uri_is(self.follows@, did@, r->0),
    {
        match self.follow_index(did) {
            Some(i) => Some(self.follows[i].remote_uri.clone()),
            None => None,
        }
    }

    /// Records a follow for `did`; the caller has checked that none exists.
    pub fn upsert_follow(&mut self, did: String, remote_uri: String)
        ensures
            final(self).follows@ == old(self).follows@.push(Follow { did, remote_uri }),
            final(self).subscriptions@ == old(self).subscriptions@,
    {
        self.follows.push(Follow { did, remote_uri });
    }

    /// Adds a subscription, whether or not the channel already subscribes to `did`.
    pub fn add_subscription(&mut self, did: String, handle: String, guild: Option<u64>, channel: u64)
        ensures
            final(self).subscriptions@ == old(self).subscriptions@.push(
                Subscription { did, handle, guild, channel },
            ),
            final(self).follows@ == old(self).follows@,
    {
        self.subscriptions.push(Subscription { did, handle, guild, channel });
    }

    /// Removes every subscription that binds `did` to `channel`, and tells whether
    /// there was one.
    pub fn remove_subscription(&mut self, did: &str, channel: u64) -> (r: bool)
        ensures
            r == has_binding(old(self).subscriptions@, did@, channel),
            final(self).subscriptions@ == without_binding(old(self).subscriptions@, did@, channel),
            final(self).follows@ == old(self).follows@,
    {
        let ghost pred = unbound(did@, channel);
        let ghost all = self.subscriptions@;
        let mut kept: Vec<Subscription> = Vec::new();
        let mut removed = false;
        let n = self.subscriptions.len();
        let mut i: usize = 0;
        while i < n
            invariant
                n == all.len(),
                i <= n,
                self.subscriptions@ == all,
                kept@ == all.subrange(0, i as int).filter(pred),
                removed == has_binding(all.subrange(0, i as int), did@, channel),
                self.follows@ == old(self).follows@,
                all == old(self).subscriptions@,
                pred == unbound(did@, channel),
            decreases n - i,
        {
            let s = self.subscriptions[i].duplicate();
            proof {
                reveal(Seq::filter);
                assert(all.subrange(0, i + 1).drop_last() =~= all.subrange(0, i as int));
            }
            if same_text(s.did.as_str(), did) && s.channel == channel {
                removed = true;
                proof {
                    assert(binds(all.subrange(0, i + 1)[i as int], did@, channel));
                }
            } else {
                proof {
                    assert forall|j: int|
                        0 <= j < i + 1 && binds(#[trigger] all.subrange(0, i + 1)[j], did@, channel)
                            implies has_binding(all.subrange(0, i as int), did@, channel) by {
                        assert(all.subrange(0, i as int)[j] == all.subrange(0, i + 1)[j]);
                    }
                }
                kept.push(s);
            }
            proof {
                assert(has_binding(all.subrange(0, i as int), did@, channel) ==> has_binding(
                    all.subrange(0, i + 1),
                    did@,
                    channel,
                )) by {
                    if has_binding(all.subrange(0, i as int), did@, channel) {
                        let j = choose|j: int|
                            0 <= j < i && binds(#[trigger] all.subrange(0, i as int)[j], did@, channel);
                        assert(all.subrange(0, i + 1)[j] == all.subrange(0, i as int)[j]);
                    }
                }
            }
            i = i + 1;
        }
        proof {
            assert(all.subrange(0, n as int) =~= all);
        }
        self.subscriptions = kept;
        removed
    }

    /// Whether any channel still subscribes to `did`.
    pub fn has_other_subscriptions(&self, did: &str) -> (r: bool)
        ensures
            r == self.has_subscription(did@),
    {
        let mut i: usize = 0;
        while i < self.subscriptions.len()
            invariant
                i <= self.subscriptions@.len(),
                forall|j: int| 0 <= j < i ==> (#[trigger] self.subscriptions@[j]).did@ != did@,
            decreases self.subscriptions@.len() - i,
        {
            if same_text(self.subscriptions[i].did.as_str(), did) {
                return true;
            }
            i = i + 1;
        }
        false
    }

    /// Removes the follow recorded for `did` and returns its remote address, or
    /// `None` where there was none.
    pub fn remove_follow_if_present(&mut self, did: &str) -> (r: Option<String>)
        requires
            old(self).wf(),
        ensures
            r is Some <==> old(self).has_follow(did@),
            r is Some ==> follow_uri_is(old(self).follows@, did@, r->0),
            final(self).follows@ == without_follow(old(self).follows@, did@),
            final(self).subscriptions@ == old(self).subscriptions@,
    {
        let ghost all = self.follows@;
        let ghost pred = not_for(did@);
        match self.follow_index(did) {
            Some(i) => {
                let f = self.follows.remove(i);
                proof {
                    lemma_remove_unique(all, i as int, did@);
                }
                Some(f.remote_uri)
            },
            None => {
                proof {
                    lemma_filter_keeps_all(all, pred);
                }
                None
            },
        }
    }
}

/// Filtering out the one follow of `did` at `k` is removing position `k`.
proof fn lemma_remove_unique(follows: Seq<Follow>, k: int, did: Seq<char>)
    requires
        0 <= k < follows.len(),
        follows[k].did@ == did,
        forall|i: int, j: int|
            0 <= i < j < follows.len() ==> (#[trigger] follows[i]).did@ != (#[trigger] follows[j]).did@,
    ensures
        without_follow(follows, did) == follows.remove(k),
    decreases follows.len(),
{
    let pred = not_for(did);
    reveal(Seq::filter);
    if k == follows.len() - 1 {
        assert(follows.drop_last() =~= follows.remove(k));
        assert forall|i: int| 0 <= i < follows.drop_last().len() implies pred(
            #[trigger] follows.drop_last()[i],
        ) by {
            assert(follows[i].did@ != follows[k].did@);
        }
        lemma_filter_keeps_all(follows.drop_last(), pred);
    } else {
        let front = follows.drop_last();
        assert forall|i: int, j: int| 0 <= i < j < front.len() implies (#[trigger] front[i]).did@
            != (#[trigger] front[j]).did@ by {
            assert(front[i] == follows[i] && front[j] == follows[j]);
        }
        lemma_remove_unique(front, k, did);
        assert(follows.last().did@ != did) by {
            assert(follows[k].did@ != follows[follows.len() - 1].did@);
        }
        assert(follows.remove(k) =~= front.remove(k).push(follows.last()));
    }
}

/// A filter that every element passes keeps the sequence as it is.
proof fn lemma_filter_keeps_all<A>(s: Seq<A>, pred: spec_fn(A) -> bool)
    requires
        forall|i: int| 0 <= i < s.len() ==> pred(#[trigger] s[i]),
    ensures
        s.filter(pred) == s,
    decreases s.len(),
{
    reveal(Seq::filter);
    if s.len() > 0 {
        let front = s.drop_last();
        assert forall|i: int| 0 <= i < front.len() implies pred(#[trigger] front[i]) by {
            assert(front[i] == s[i]);
        }
        lemma_filter_keeps_all(front, pred);
        assert(pred(s[s.len() - 1]));
        assert(front.push(s.last()) =~= s);
        assert(s.filter(pred) == front.filter(pred).push(s.last()));
    } else {
        assert(s.filter(pred) == s);
    }
}

} // verus!
